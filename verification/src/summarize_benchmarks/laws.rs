//! What comparisons, counts and sweeps show, told by the records they are made of.

use vstd::prelude::*;
use vstd::set_lib::set_int_range;

use super::classify::{
    authority_of, run_trusted, stability_of, summarizes, Better, Destabilized, Measured,
    Stabilized, Trusted, TrustedByDefault, Worse,
};
use super::compare::{
    comparison_of, delta_of, missing_in, record_of, record_of_an_id, ComparisonOutcomeView,
    DeltaOrder, RowOrder,
};
use super::config::{BenchSummaryConfig, StabilityThresholds};
use super::model::{
    BenchmarkDelta, BenchmarkDeltaView, BenchmarkRecord, BenchmarkRecordView, ComparisonSummary,
    MetricDirection, SweepGroup, SweepGroupView, SweepPoint, SweepPointView,
};
use super::numbers::{Arithmetic, Number, Operation, Reading, HUNDRED};
use super::sweep::{
    entry_keys, group_of, groups_of, name_entries, points_of, record_entries, sweep_entries,
    tag_entry, with_changes, ByParameter, ByTitle, SweepEntryView,
};
use crate::names::{listed, listed_exists};
use crate::order::{sorted, sorted_is_permutation, sorted_keeps_values};
use crate::patterns::pattern_match;
use crate::select::wanted;
use crate::seqs::{any, every, flat, in_keep, keep, kept, kept_count, mapped};

verus! {

/// Whether a number is greater than zero: its sign bit is not set, and it is neither zero
/// nor above infinity.
pub open spec fn is_above_zero(number: Number) -> bool {
    0 < number.bits <= 0x7ff0_0000_0000_0000u64
}

/// How many places of a list satisfy a condition.
pub open spec fn places<A>(s: Seq<A>, p: spec_fn(A) -> bool) -> nat {
    set_int_range(0, s.len() as int).filter(|i: int| p(s[i])).len()
}

/// Whether a stability is one that the configuration relies on.
pub open spec fn relies_on(config: &BenchSummaryConfig, stability: Option<Seq<char>>) -> bool {
    match stability {
        Some(text) => config.authoritative_stabilities@.contains(text),
        None => false,
    }
}

/// The change of a record for the better in per cent, none counting as zero.
pub open spec fn gain(delta: BenchmarkDeltaView) -> Number {
    match delta.directional_delta_pct {
        Some(change) => change,
        None => Number { bits: 0 },
    }
}

proof fn same_places<A>(s: Seq<A>, p: spec_fn(A) -> bool, q: spec_fn(A) -> bool)
    requires
        forall|i: int| 0 <= i < s.len() ==> p(#[trigger] s[i]) == q(s[i]),
    ensures
        keep(s, p).len() == places(s, q),
{
    kept_count(s, p);
    let n = s.len() as int;
    assert(set_int_range(0, n).filter(|i: int| p(s[i])) =~= set_int_range(0, n).filter(
        |i: int| q(s[i]),
    ));
}

/// A summary counts the deltas: of a stability the baseline's record had and the run's lost
/// or the other way round, of a change by at least a threshold, of any change at all.
pub proof fn summary_counts_deltas(
    summary: ComparisonSummary,
    records: Seq<BenchmarkRecordView>,
    comparison: ComparisonOutcomeView,
    baseline_available: bool,
    risk_areas: usize,
    config: &BenchSummaryConfig,
)
    requires
        summarizes(summary, records, comparison, baseline_available, risk_areas, config),
    ensures
        summary.stability_regressions == places(
            comparison.deltas,
            |d: BenchmarkDeltaView|
                relies_on(config, d.baseline_stability) && !relies_on(config, d.current_stability),
        ),
        summary.stability_improvements == places(
            comparison.deltas,
            |d: BenchmarkDeltaView|
                relies_on(config, d.current_stability) && !relies_on(config, d.baseline_stability),
        ),
        summary.performance_changes == places(
            comparison.deltas,
            |d: BenchmarkDeltaView| d.delta_pct is Some,
        ),
        summary.improved == places(
            comparison.deltas,
            |d: BenchmarkDeltaView|
                config.thresholds.warning_regression_pct.at_most(gain(d)),
        ),
        summary.regressions == places(
            comparison.deltas,
            |d: BenchmarkDeltaView|
                gain(d).at_most(config.thresholds.warning_regression_pct.negated()),
        ),
        summary.critical == places(
            comparison.deltas,
            |d: BenchmarkDeltaView|
                gain(d).at_most(config.thresholds.critical_regression_pct.negated()),
        ),
        summary.new == comparison.new_records.len(),
        summary.missing == comparison.missing_records.len(),
        summary.risk_areas == risk_areas,
        summary.baseline_available == baseline_available,
{
    let deltas = comparison.deltas;
    let warning = config.thresholds.warning_regression_pct;
    let critical = config.thresholds.critical_regression_pct;
    same_places(
        deltas,
        wanted::<BenchmarkDelta, Destabilized>(&Destabilized { config }),
        |d: BenchmarkDeltaView|
            relies_on(config, d.baseline_stability) && !relies_on(config, d.current_stability),
    );
    same_places(
        deltas,
        wanted::<BenchmarkDelta, Stabilized>(&Stabilized { config }),
        |d: BenchmarkDeltaView|
            relies_on(config, d.current_stability) && !relies_on(config, d.baseline_stability),
    );
    same_places(
        deltas,
        wanted::<BenchmarkDelta, Measured>(&Measured),
        |d: BenchmarkDeltaView| d.delta_pct is Some,
    );
    same_places(
        deltas,
        wanted::<BenchmarkDelta, Better>(&Better { threshold: warning }),
        |d: BenchmarkDeltaView| config.thresholds.warning_regression_pct.at_most(gain(d)),
    );
    same_places(
        deltas,
        wanted::<BenchmarkDelta, Worse>(&Worse { threshold: warning }),
        |d: BenchmarkDeltaView|
            gain(d).at_most(config.thresholds.warning_regression_pct.negated()),
    );
    same_places(
        deltas,
        wanted::<BenchmarkDelta, Worse>(&Worse { threshold: critical }),
        |d: BenchmarkDeltaView|
            gain(d).at_most(config.thresholds.critical_regression_pct.negated()),
    );
}

/// Where run and baseline change places, what had got less stable has got more stable, and
/// the other way round.
pub proof fn swapped_stabilities_swap_counts(
    a: ComparisonSummary,
    b: ComparisonSummary,
    records: Seq<BenchmarkRecordView>,
    left: ComparisonOutcomeView,
    right: ComparisonOutcomeView,
    baseline_available: bool,
    risk_areas: usize,
    config: &BenchSummaryConfig,
)
    requires
        summarizes(a, records, left, baseline_available, risk_areas, config),
        summarizes(b, records, right, baseline_available, risk_areas, config),
        left.deltas.len() == right.deltas.len(),
        forall|i: int|
            0 <= i < left.deltas.len() ==> (#[trigger] left.deltas[i]).baseline_stability
                == right.deltas[i].current_stability && left.deltas[i].current_stability
                == right.deltas[i].baseline_stability,
    ensures
        a.stability_regressions == b.stability_improvements,
        a.stability_improvements == b.stability_regressions,
{
    summary_counts_deltas(a, records, left, baseline_available, risk_areas, config);
    summary_counts_deltas(b, records, right, baseline_available, risk_areas, config);
    let lost = |d: BenchmarkDeltaView|
        relies_on(config, d.baseline_stability) && !relies_on(config, d.current_stability);
    let won = |d: BenchmarkDeltaView|
        relies_on(config, d.current_stability) && !relies_on(config, d.baseline_stability);
    let n = left.deltas.len() as int;
    let l = left.deltas;
    let r = right.deltas;
    assert(set_int_range(0, n).filter(|i: int| lost(l[i])) =~= set_int_range(0, n).filter(
        |i: int| won(r[i]),
    ));
    assert(set_int_range(0, n).filter(|i: int| won(l[i])) =~= set_int_range(0, n).filter(
        |i: int| lost(r[i]),
    ));
}

/// A run can be relied on exactly where it has records and the configuration relies on the
/// status and the stability of each.
pub proof fn authority_needs_every_record(
    records: Seq<BenchmarkRecordView>,
    config: &BenchSummaryConfig,
)
    ensures
        run_trusted(records, config) <==> records.len() > 0 && forall|i: int|
            0 <= i < records.len() ==> relies_on(config, (#[trigger] records[i]).stability) && (
            match records[i].status {
                Some(status) => config.authoritative_statuses@.contains(status),
                None => false,
            }),
{
    let p = wanted::<BenchmarkRecord, Trusted>(&Trusted { config });
    assert forall|i: int| 0 <= i < records.len() implies p(#[trigger] records[i]) == (relies_on(
        config,
        records[i].stability,
    ) && (match records[i].status {
        Some(status) => config.authoritative_statuses@.contains(status),
        None => false,
    })) by {}
}

/// How far a run can be relied on, in words: a run of the default profile is never called
/// authoritative, and a run without records is never relied on.
pub proof fn authority_in_words(
    records: Seq<BenchmarkRecordView>,
    summary: ComparisonSummary,
    config: &BenchSummaryConfig,
)
    ensures
        ({
            let by_default = forall|i: int|
                0 <= i < records.len() ==> (#[trigger] records[i]).metadata.contains_key(
                    "run_profile"@,
                ) && records[i].metadata["run_profile"@] == "default"@ && relies_on(
                    config,
                    records[i].stability,
                ) && (match records[i].status {
                    Some(status) => config.authoritative_statuses@.contains(status),
                    None => false,
                });
            &&& records.len() == 0 ==> authority_of(records, summary, config)
                == "not trustworthy enough for authority"@
            &&& records.len() > 0 && by_default ==> authority_of(records, summary, config)
                == "accepted default profile, not lab-authoritative"@
            &&& records.len() > 0 && !by_default && summary.authoritative ==> authority_of(
                records,
                summary,
                config,
            ) == "lab-authoritative"@
            &&& records.len() > 0 && !by_default && !summary.authoritative ==> authority_of(
                records,
                summary,
                config,
            ) == "not trustworthy enough for authority"@
        }),
{
    let p = wanted::<BenchmarkRecord, TrustedByDefault>(&TrustedByDefault { config });
    assert forall|i: int| 0 <= i < records.len() implies p(#[trigger] records[i]) == (
    records[i].metadata.contains_key("run_profile"@) && records[i].metadata["run_profile"@]
        == "default"@ && relies_on(config, records[i].stability) && (match records[i].status {
        Some(status) => config.authoritative_statuses@.contains(status),
        None => false,
    })) by {}
}

/// How good a stability is, the best being the highest.
pub open spec fn grade(stability: Seq<char>) -> int {
    if stability == "stable"@ {
        3
    } else if stability == "acceptable"@ {
        2
    } else if stability == "noisy"@ {
        1
    } else {
        0
    }
}

/// The stability of a measurement is the best one whose threshold its deviation does not
/// exceed; of two measurements the one that deviates more is never called more stable.
pub proof fn stability_goes_by_deviation(a: Number, b: Number, thresholds: StabilityThresholds)
    requires
        a.at_most(b),
        thresholds.stable.at_most(thresholds.acceptable),
        thresholds.acceptable.at_most(thresholds.noisy),
    ensures
        grade(stability_of(Some(b), thresholds)) <= grade(stability_of(Some(a), thresholds)),
        stability_of(Some(a), thresholds) == "stable"@ <==> a.at_most(thresholds.stable),
        grade(stability_of(Some(a), thresholds)) >= 2 <==> a.at_most(thresholds.acceptable),
        grade(stability_of(Some(a), thresholds)) >= 1 <==> a.at_most(thresholds.noisy),
        !a.at_most(thresholds.noisy) ==> stability_of(Some(a), thresholds) == "untrustworthy"@,
        stability_of(None, thresholds) == "unknown"@,
{
    reveal_strlit("stable");
    reveal_strlit("acceptable");
    reveal_strlit("noisy");
    reveal_strlit("untrustworthy");
    assert("stable"@.len() == 6);
    assert("acceptable"@.len() == 10);
    assert("noisy"@.len() == 5);
    assert("untrustworthy"@.len() == 13);
}

/// The groups of a run's records.
pub open spec fn sweeps(
    records: Seq<BenchmarkRecordView>,
    config: &BenchSummaryConfig,
    arithmetic: Arithmetic,
    reading: Reading,
) -> Seq<SweepGroupView> {
    groups_of(sweep_entries(records, config, arithmetic, reading), arithmetic)
}

/// Whether no change is noted yet in some entries.
spec fn unchanged(entries: Seq<SweepEntryView>) -> bool {
    every(entries, |e: SweepEntryView| e.point.delta_vs_previous_pct is None)
}

proof fn flat_unchanged<A>(s: Seq<A>, f: spec_fn(A) -> Seq<SweepEntryView>)
    requires
        forall|i: int| 0 <= i < s.len() ==> unchanged(#[trigger] f(s[i])),
    ensures
        unchanged(flat(s, f)),
    decreases s.len(),
{
    let p = |e: SweepEntryView| e.point.delta_vs_previous_pct is None;
    if s.len() > 0 {
        let rest = s.drop_last();
        assert forall|i: int| 0 <= i < rest.len() implies unchanged(#[trigger] f(rest[i])) by {
            assert(rest[i] == s[i]);
        }
        flat_unchanged(rest, f);
        assert(unchanged(f(s[s.len() - 1])));
        let all = flat(s, f);
        assert forall|i: int| 0 <= i < all.len() implies p(#[trigger] all[i]) by {
            if i < flat(rest, f).len() {
                assert(p(flat(rest, f)[i]));
            } else {
                assert(p(f(s.last())[i - flat(rest, f).len()]));
            }
        }
    }
}

proof fn entries_are_unchanged(
    records: Seq<BenchmarkRecordView>,
    config: &BenchSummaryConfig,
    arithmetic: Arithmetic,
    reading: Reading,
)
    ensures
        unchanged(sweep_entries(records, config, arithmetic, reading)),
{
    let f = |r: BenchmarkRecordView| record_entries(r, config, arithmetic, reading);
    assert forall|i: int| 0 <= i < records.len() implies unchanged(#[trigger] f(records[i])) by {
        let record = records[i];
        let g = |key: Seq<char>| tag_entry(record, key, config, arithmetic, reading);
        let keys = listed(record.tags.dom());
        assert forall|k: int| 0 <= k < keys.len() implies unchanged(#[trigger] g(keys[k])) by {}
        flat_unchanged(keys, g);
        assert(unchanged(name_entries(record, config, arithmetic, reading)));
    }
    flat_unchanged(records, f);
}

/// A group of the result is the group of a key with at least two points.
proof fn group_has_a_key(entries: Seq<SweepEntryView>, arithmetic: Arithmetic, g: int) -> (key: Seq<
    char,
>)
    requires
        0 <= g < groups_of(entries, arithmetic).len(),
    ensures
        groups_of(entries, arithmetic)[g] == group_of(entries, key, arithmetic),
        points_of(entries, key).len() >= 2,
        entry_keys(entries).contains(key),
{
    let p = |key: Seq<char>| points_of(entries, key).len() >= 2;
    let f = |key: Seq<char>| group_of(entries, key, arithmetic);
    let names = listed(entry_keys(entries));
    let some = keep(names, p);
    let all = mapped(some, f);
    let group = groups_of(entries, arithmetic)[g];
    assert(groups_of(entries, arithmetic).contains(group));
    sorted_keeps_values::<SweepGroup, ByTitle>(all, group);
    let k = all.index_of(group);
    kept(names, p);
    assert(p(some[k]));
    listed_exists(mapped(entries, |e: SweepEntryView| e.key));
    assert(names.to_set().contains(some[k]));
    some[k]
}

/// The change noted for a point of a sweep is the one since the point before it, in per cent
/// of that point's value, where that value is above zero; otherwise, and for the first
/// point, no change is noted.
pub proof fn changes_are_since_the_point_before(
    records: Seq<BenchmarkRecordView>,
    config: &BenchSummaryConfig,
    arithmetic: Arithmetic,
    reading: Reading,
    g: int,
    i: int,
)
    requires
        0 <= g < sweeps(records, config, arithmetic, reading).len(),
        0 <= i < sweeps(records, config, arithmetic, reading)[g].points.len(),
    ensures
        ({
            let points = sweeps(records, config, arithmetic, reading)[g].points;
            let now = points[i].metric_value;
            let before = points[i - 1].metric_value;
            points[i].delta_vs_previous_pct == if i > 0 && is_above_zero(before) {
                let difference = arithmetic(now, Operation::Difference, before);
                let share = arithmetic(difference, Operation::Ratio, before);
                Some(arithmetic(share, Operation::Product, Number { bits: HUNDRED }))
            } else {
                None::<Number>
            }
        }),
{
    let entries = sweep_entries(records, config, arithmetic, reading);
    entries_are_unchanged(records, config, arithmetic, reading);
    let key = group_has_a_key(entries, arithmetic, g);
    let p = |e: SweepEntryView| e.key == key;
    let q = |e: SweepEntryView| e.point.delta_vs_previous_pct is None;
    let raw = points_of(entries, key);
    let ordered = sorted::<SweepPoint, ByParameter>(raw);
    sorted_is_permutation::<SweepPoint, ByParameter>(raw);
    assert(ordered.contains(ordered[i]));
    sorted_keeps_values::<SweepPoint, ByParameter>(raw, ordered[i]);
    let k = raw.index_of(ordered[i]);
    kept(entries, p);
    let source = keep(entries, p)[k];
    let l = entries.index_of(source);
    assert(q(entries[l]));
    assert(ordered[i].delta_vs_previous_pct is None);
}

/// Leaving out the first of some points changes nothing that is noted for the points behind
/// the second: a change depends on a point and the one before it alone.
pub proof fn changes_ignore_earlier_points(points: Seq<SweepPointView>, arithmetic: Arithmetic, i: int)
    requires
        1 <= i < points.len() - 1,
    ensures
        with_changes(points.skip(1), arithmetic)[i] == with_changes(points, arithmetic)[i + 1],
        with_changes(points, arithmetic).len() == points.len(),
{
    assert(points.skip(1)[i] == points[i + 1]);
    assert(points.skip(1)[i - 1] == points[i]);
}

/// The points of a group are those of its key, each once, and nothing but the noted change
/// is new in them; every key with at least two points has its group.
pub proof fn groups_hold_the_points_of_their_key(
    entries: Seq<SweepEntryView>,
    arithmetic: Arithmetic,
    key: Seq<char>,
)
    requires
        places(entries, |e: SweepEntryView| e.key == key) >= 2,
    ensures
        exists|g: int|
            0 <= g < groups_of(entries, arithmetic).len() && (#[trigger] groups_of(
                entries,
                arithmetic,
            )[g]).points.len() == places(entries, |e: SweepEntryView| e.key == key)
                && is_group_of(groups_of(entries, arithmetic)[g], entries, key),
{
    let p = |e: SweepEntryView| e.key == key;
    let q = |key: Seq<char>| points_of(entries, key).len() >= 2;
    let f = |key: Seq<char>| group_of(entries, key, arithmetic);
    let names = listed(entry_keys(entries));
    kept_count(entries, p);
    kept(entries, p);
    let first = keep(entries, p)[0];
    let at = entries.index_of(first);
    let all_keys = mapped(entries, |e: SweepEntryView| e.key);
    assert(all_keys[at] == key);
    assert(all_keys.to_set().contains(key));
    listed_exists(all_keys);
    assert(names.to_set().contains(key));
    in_keep(names, q, key);
    assert(q(key));
    let some = keep(names, q);
    let k = some.index_of(key);
    let all = mapped(some, f);
    let group = group_of(entries, key, arithmetic);
    assert(all[k] == group);
    sorted_keeps_values::<SweepGroup, ByTitle>(all, group);
    let g = groups_of(entries, arithmetic).index_of(group);
    let raw = points_of(entries, key);
    sorted_is_permutation::<SweepPoint, ByParameter>(raw);
    assert forall|i: int| 0 <= i < group.points.len() implies exists|l: int|
        0 <= l < entries.len() && (#[trigger] entries[l]).key == key && same_measurement(
            #[trigger] group.points[i],
            entries[l].point,
        ) by {
        let ordered = sorted::<SweepPoint, ByParameter>(raw);
        assert(ordered.contains(ordered[i]));
        sorted_keeps_values::<SweepPoint, ByParameter>(raw, ordered[i]);
        let r = raw.index_of(ordered[i]);
        let source = keep(entries, p)[r];
        let l = entries.index_of(source);
        assert(entries[l] == source);
        assert(entries[l].key == key && same_measurement(group.points[i], entries[l].point));
    }
    assert(groups_of(entries, arithmetic)[g] == group);
}

/// Whether two points measured the same.
pub open spec fn same_measurement(a: SweepPointView, b: SweepPointView) -> bool {
    &&& a.parameter == b.parameter
    &&& a.parameter_label == b.parameter_label
    &&& a.parameter_value == b.parameter_value
    &&& a.metric_value == b.metric_value
    &&& a.rel_stddev == b.rel_stddev
    &&& a.samples == b.samples
    &&& a.status == b.status
}

/// Whether every point of a group is one of the entries with a key.
pub open spec fn is_group_of(
    group: SweepGroupView,
    entries: Seq<SweepEntryView>,
    key: Seq<char>,
) -> bool {
    forall|i: int|
        0 <= i < group.points.len() ==> exists|l: int|
            0 <= l < entries.len() && (#[trigger] entries[l]).key == key && same_measurement(
                #[trigger] group.points[i],
                entries[l].point,
            )
}

/// Whether a record is the last of some with its id.
pub open spec fn is_last_of_its_id(records: Seq<BenchmarkRecordView>, k: int) -> bool {
    0 <= k < records.len() && forall|l: int|
        k < l < records.len() ==> (#[trigger] records[l]).id != records[k].id
}

/// Whether some record has an id.
pub open spec fn has_id(records: Seq<BenchmarkRecordView>, id: Seq<char>) -> bool {
    exists|k: int| 0 <= k < records.len() && (#[trigger] records[k]).id == id
}

proof fn record_is_the_last(records: Seq<BenchmarkRecordView>, id: Seq<char>)
    ensures
        record_of(records, id) is Some <==> has_id(records, id),
        forall|k: int| #[trigger]
            is_last_of_its_id(records, k) && records[k].id == id ==> record_of(records, id)
                == Some(records[k]),
        has_id(records, id) ==> exists|k: int| #[trigger]
            is_last_of_its_id(records, k) && records[k].id == id,
    decreases records.len(),
{
    let p = |r: BenchmarkRecordView| r.id == id;
    if records.len() > 0 {
        let rest = records.drop_last();
        let end = records.len() - 1;
        record_is_the_last(rest, id);
        if records.last().id == id {
            assert(records[end].id == id);
            assert(is_last_of_its_id(records, end));
            assert forall|k: int| #[trigger]
                is_last_of_its_id(records, k) && records[k].id == id implies k == end by {
                if k < end {
                    assert(records[end].id != records[k].id);
                }
            }
        } else {
            assert forall|k: int| #[trigger]
                is_last_of_its_id(records, k) && records[k].id == id implies record_of(
                records,
                id,
            ) == Some(records[k]) by {
                assert(k < end);
                assert forall|l: int| k < l < rest.len() implies (#[trigger] rest[l]).id
                    != rest[k].id by {
                    assert(rest[l] == records[l]);
                }
                assert(is_last_of_its_id(rest, k));
            }
            if has_id(records, id) {
                let k = choose|k: int| 0 <= k < records.len() && (#[trigger] records[k]).id == id;
                assert(rest[k].id == id);
                let l = choose|l: int| #[trigger] is_last_of_its_id(rest, l) && rest[l].id == id;
                assert forall|m: int| l < m < records.len() implies (#[trigger] records[m]).id
                    != records[l].id by {
                    if m < end {
                        assert(rest[m] == records[m]);
                    }
                }
                assert(is_last_of_its_id(records, l));
            }
            if has_id(rest, id) {
                let k = choose|k: int| 0 <= k < rest.len() && (#[trigger] rest[k]).id == id;
                assert(records[k].id == id);
            }
        }
    }
}

/// The new records of a comparison are those of the run whose id no record of the baseline
/// has, each as often as the run has it.
pub proof fn new_records_are_not_in_the_baseline(
    current: Seq<BenchmarkRecordView>,
    baseline: Seq<BenchmarkRecordView>,
    arithmetic: Arithmetic,
    record: BenchmarkRecordView,
)
    ensures
        comparison_of(current, baseline, arithmetic).new_records.contains(record)
            <==> current.contains(record) && !has_id(baseline, record.id),
        comparison_of(current, baseline, arithmetic).new_records.len() == places(
            current,
            |r: BenchmarkRecordView| !has_id(baseline, r.id),
        ),
{
    let p = |r: BenchmarkRecordView| record_of(baseline, r.id) is None;
    in_keep(current, p, record);
    record_is_the_last(baseline, record.id);
    assert forall|i: int| 0 <= i < current.len() implies p(#[trigger] current[i]) == !has_id(
        baseline,
        current[i].id,
    ) by {
        record_is_the_last(baseline, current[i].id);
    }
    same_places(current, p, |r: BenchmarkRecordView| !has_id(baseline, r.id));
}

/// The missing records of a comparison are those of the baseline whose id no record of the
/// run has, the last one for each id.
pub proof fn missing_records_are_not_in_the_run(
    current: Seq<BenchmarkRecordView>,
    baseline: Seq<BenchmarkRecordView>,
    arithmetic: Arithmetic,
    record: BenchmarkRecordView,
)
    ensures
        comparison_of(current, baseline, arithmetic).missing_records.contains(record)
            <==> !has_id(current, record.id) && exists|k: int| #[trigger]
            is_last_of_its_id(baseline, k) && baseline[k] == record,
        comparison_of(current, baseline, arithmetic).missing_records.no_duplicates(),
{
    let ids = super::compare::ids(baseline);
    let now = super::compare::ids(current);
    let names = listed(ids);
    let p = |id: Seq<char>| !now.contains(id);
    let f = |id: Seq<char>| record_of(baseline, id)->Some_0;
    let some = keep(names, p);
    let all = missing_in(current, baseline);
    listed_exists(mapped(baseline, |r: BenchmarkRecordView| r.id));
    kept(names, p);
    assert forall|k: int| 0 <= k < some.len() implies (#[trigger] all[k]).id == some[k] by {
        assert(names.to_set().contains(some[k]));
        record_of_an_id(baseline, some[k]);
    }
    crate::names::ascending_has_no_duplicates(names);
    kept_no_duplicates(names, p);
    assert(all.no_duplicates()) by {
        assert forall|i: int, j: int|
            0 <= i < all.len() && 0 <= j < all.len() && i != j implies all[i] != all[j] by {
            assert(all[i].id == some[i] && all[j].id == some[j]);
        }
    }
    crate::order::sorted_keeps_distinct::<BenchmarkRecord, RowOrder>(all);
    sorted_keeps_values::<BenchmarkRecord, RowOrder>(all, record);
    record_is_the_last(baseline, record.id);
    record_is_the_last(current, record.id);
    record_of_an_id(current, record.id);
    record_of_an_id(baseline, record.id);
    if all.contains(record) {
        let k = all.index_of(record);
        assert(p(some[k]));
        assert(all[k].id == some[k]);
        assert(names.to_set().contains(some[k]));
        let l = choose|l: int| #[trigger]
            is_last_of_its_id(baseline, l) && baseline[l].id == record.id;
        assert(baseline[l] == record);
    }
    if !has_id(current, record.id) && exists|k: int| #[trigger]
        is_last_of_its_id(baseline, k) && baseline[k] == record {
        let k = choose|k: int| #[trigger] is_last_of_its_id(baseline, k) && baseline[k] == record;
        assert(has_id(baseline, record.id));
        in_keep(names, p, record.id);
        assert(names.to_set().contains(record.id));
        let l = some.index_of(record.id);
        assert(all[l] == record);
    }
}

proof fn kept_no_duplicates<A>(s: Seq<A>, p: spec_fn(A) -> bool)
    requires
        s.no_duplicates(),
    ensures
        keep(s, p).no_duplicates(),
    decreases s.len(),
{
    if s.len() > 0 {
        let rest = s.drop_last();
        kept_no_duplicates(rest, p);
        kept(rest, p);
        let before = keep(rest, p);
        let now = keep(s, p);
        assert forall|i: int, j: int|
            0 <= i < now.len() && 0 <= j < now.len() && i != j implies now[i] != now[j] by {
            if i < before.len() && j < before.len() {
                assert(now[i] == before[i] && now[j] == before[j]);
            } else {
                let k = if i < before.len() {
                    i
                } else {
                    j
                };
                assert(rest.contains(before[k]));
                let l = rest.index_of(before[k]);
                assert(s[l] == before[k]);
                assert(s[l] != s[s.len() - 1]);
            }
        }
    }
}

/// What the metadata of a record say that nanoseconds per operation are based on.
pub open spec fn basis(record: BenchmarkRecordView) -> Option<Seq<char>> {
    if record.metadata.contains_key("ns_per_op_basis"@) {
        Some(record.metadata["ns_per_op_basis"@])
    } else {
        None
    }
}

/// The number with its sign bit turned.
pub open spec fn turned(number: Number) -> Number {
    if number.bits >= 0x8000_0000_0000_0000u64 {
        Number { bits: (number.bits - 0x8000_0000_0000_0000u64) as u64 }
    } else {
        Number { bits: (number.bits + 0x8000_0000_0000_0000u64) as u64 }
    }
}

/// Whether a delta tells how a record stands to a record of the baseline.
pub open spec fn holds_against(
    delta: BenchmarkDeltaView,
    now: BenchmarkRecordView,
    then: BenchmarkRecordView,
    arithmetic: Arithmetic,
) -> bool {
    let usable = 0 < then.value.bits < 0x7ff0_0000_0000_0000u64;
    let difference = arithmetic(now.value, Operation::Difference, then.value);
    let share = arithmetic(difference, Operation::Ratio, then.value);
    let change = arithmetic(share, Operation::Product, Number { bits: HUNDRED });
    &&& delta.baseline_stability == then.stability
    &&& delta.baseline_status == then.status
    &&& delta.baseline_value == if usable {
        Some(then.value)
    } else {
        None
    }
    &&& delta.semantic_change is Some <==> basis(now) != basis(then)
    &&& delta.delta_pct == if usable && basis(now) == basis(then) {
        Some(change)
    } else {
        None
    }
    &&& delta.directional_delta_pct == if usable && basis(now) == basis(then) {
        match now.metric_direction {
            MetricDirection::HigherIsBetter => Some(change),
            MetricDirection::LowerIsBetter => Some(turned(change)),
        }
    } else {
        None
    }
}

/// Whether a delta tells how a record stands to a baseline: to the last record of its id
/// there, or to nothing where there is none.
pub open spec fn is_delta(
    delta: BenchmarkDeltaView,
    record: BenchmarkRecordView,
    baseline: Seq<BenchmarkRecordView>,
    arithmetic: Arithmetic,
) -> bool {
    &&& delta.id == record.id
    &&& delta.suite == record.suite
    &&& delta.case == record.case
    &&& delta.metric == record.metric
    &&& delta.current_value == record.value
    &&& delta.current_stability == record.stability
    &&& delta.current_status == record.status
    &&& forall|k: int| #[trigger]
        is_last_of_its_id(baseline, k) && baseline[k].id == record.id ==> holds_against(
            delta,
            record,
            baseline[k],
            arithmetic,
        )
    &&& !has_id(baseline, record.id) ==> delta.baseline_value is None
        && delta.delta_pct is None && delta.directional_delta_pct is None
        && delta.baseline_stability is None && delta.baseline_status is None
        && delta.semantic_change is None
}

/// Every record of a run has a delta that tells how it stands to the baseline, and every
/// delta is that of a record.
pub proof fn deltas_hold_records_against_the_baseline(
    current: Seq<BenchmarkRecordView>,
    baseline: Seq<BenchmarkRecordView>,
    arithmetic: Arithmetic,
)
    ensures
        ({
            let deltas = comparison_of(current, baseline, arithmetic).deltas;
            &&& deltas.len() == current.len()
            &&& forall|i: int|
                0 <= i < current.len() ==> exists|k: int|
                    0 <= k < deltas.len() && is_delta(
                        #[trigger] deltas[k],
                        #[trigger] current[i],
                        baseline,
                        arithmetic,
                    )
            &&& forall|k: int|
                0 <= k < deltas.len() ==> exists|i: int|
                    0 <= i < current.len() && is_delta(
                        #[trigger] deltas[k],
                        #[trigger] current[i],
                        baseline,
                        arithmetic,
                    )
        }),
{
    let f = |r: BenchmarkRecordView| delta_of(r, record_of(baseline, r.id), arithmetic);
    let all = mapped(current, f);
    let deltas = comparison_of(current, baseline, arithmetic).deltas;
    sorted_is_permutation::<BenchmarkDelta, DeltaOrder>(all);
    assert forall|i: int| 0 <= i < current.len() implies exists|k: int|
        0 <= k < deltas.len() && is_delta(
            #[trigger] deltas[k],
            #[trigger] current[i],
            baseline,
            arithmetic,
        ) by {
        delta_is_delta(current[i], baseline, arithmetic);
        assert(all[i] == f(current[i]));
        assert(all.contains(all[i]));
        sorted_keeps_values::<BenchmarkDelta, DeltaOrder>(all, all[i]);
        let k = deltas.index_of(all[i]);
        assert(is_delta(deltas[k], current[i], baseline, arithmetic));
    }
    assert forall|k: int| 0 <= k < deltas.len() implies exists|i: int|
        0 <= i < current.len() && is_delta(
            #[trigger] deltas[k],
            #[trigger] current[i],
            baseline,
            arithmetic,
        ) by {
        assert(deltas.contains(deltas[k]));
        sorted_keeps_values::<BenchmarkDelta, DeltaOrder>(all, deltas[k]);
        let i = all.index_of(deltas[k]);
        delta_is_delta(current[i], baseline, arithmetic);
        assert(is_delta(deltas[k], current[i], baseline, arithmetic));
    }
}

proof fn delta_is_delta(
    record: BenchmarkRecordView,
    baseline: Seq<BenchmarkRecordView>,
    arithmetic: Arithmetic,
)
    ensures
        is_delta(
            delta_of(record, record_of(baseline, record.id), arithmetic),
            record,
            baseline,
            arithmetic,
        ),
{
    record_is_the_last(baseline, record.id);
}

/// Numbers are in the order of the doubles that their bits stand for: by the bits where both
/// are positive, against the bits where both are negative, negative ones below positive ones
/// save that both zeros are the same; what is no number is in no order.
pub proof fn numbers_are_in_the_order_of_doubles(a: Number, b: Number)
    ensures
        ({
            let sign = 0x8000_0000_0000_0000u64;
            let infinity = 0x7ff0_0000_0000_0000u64;
            let a_is_none = (a.bits < sign && a.bits > infinity) || a.bits - sign > infinity;
            let b_is_none = (b.bits < sign && b.bits > infinity) || b.bits - sign > infinity;
            &&& a_is_none || b_is_none ==> !a.below(b) && !a.at_most(b)
            &&& !a_is_none && !b_is_none ==> a.at_most(b) == !b.below(a)
            &&& !a_is_none && !b_is_none && a.bits < sign && b.bits < sign ==> a.below(b) == (
            a.bits < b.bits)
            &&& !a_is_none && !b_is_none && a.bits >= sign && b.bits >= sign ==> a.below(b) == (
            a.bits > b.bits)
            &&& !a_is_none && !b_is_none && a.bits >= sign && b.bits < sign ==> a.below(b) == !(
            a.bits == sign && b.bits == 0)
            &&& !a_is_none && !b_is_none && a.bits < sign && b.bits >= sign ==> !a.below(b)
            &&& a.nan() == a_is_none
            &&& a.finite() == ((a.bits < sign && a.bits < infinity) || (a.bits >= sign && a.bits
                - sign < infinity))
            &&& a.zero() == (a.bits == 0 || a.bits == sign)
            &&& a.positive() == is_above_zero(a)
            &&& a.negative() == (sign < a.bits <= sign + infinity)
            &&& a.negated() == turned(a)
        }),
{
}

/// A record is left out of a summary exactly where its id is one of those to ignore, or an
/// ignored pattern matches one of its texts, or a key, a value or a pair of its tags or its
/// metadata; every other record is in it, as often as it was measured.
pub proof fn summarized_records_are_those_not_ignored(
    records: Seq<BenchmarkRecordView>,
    config: &BenchSummaryConfig,
    record: BenchmarkRecordView,
)
    ensures
        super::prepared(records, config).contains(record) <==> records.contains(record)
            && !config.ignored_exact_ids@.contains(record.id) && forall|k: int, text: Seq<char>|
            0 <= k < config.ignored_patterns@.len() && #[trigger] is_text_of(record, text)
                ==> #[trigger] pattern_match(config.ignored_patterns@[k]@, text) is None,
        super::prepared(records, config).len() == places(
            records,
            |r: BenchmarkRecordView| !config@.ignores(r),
        ),
{
    let p = wanted::<BenchmarkRecord, super::Kept>(&super::Kept { config });
    let some = keep(records, p);
    in_keep(records, p, record);
    sorted_keeps_values::<BenchmarkRecord, super::RecordOrder>(some, record);
    sorted_is_permutation::<BenchmarkRecord, super::RecordOrder>(some);
    same_places(records, p, |r: BenchmarkRecordView| !config@.ignores(r));
    let patterns = config@.ignored_patterns;
    let q = |pattern: Seq<char>| super::config::hits_record(pattern, record);
    assert forall|k: int| 0 <= k < config.ignored_patterns@.len() implies #[trigger] patterns[k]
        == config.ignored_patterns@[k]@ by {}
    if any(patterns, q) {
        let k = choose|k: int| 0 <= k < patterns.len() && q(#[trigger] patterns[k]);
        let text = hit_text(patterns[k], record);
        assert(is_text_of(record, text));
        assert(pattern_match(config.ignored_patterns@[k]@, text) is Some);
    }
    if exists|k: int, text: Seq<char>|
        0 <= k < config.ignored_patterns@.len() && #[trigger] is_text_of(record, text)
            && #[trigger] pattern_match(config.ignored_patterns@[k]@, text) is Some {
        let (k, text) = choose|k: int, text: Seq<char>|
            0 <= k < config.ignored_patterns@.len() && #[trigger] is_text_of(record, text)
                && #[trigger] pattern_match(config.ignored_patterns@[k]@, text) is Some;
        text_hits(patterns[k], record, text);
        assert(q(patterns[k]));
    }
}

/// Whether a text is one that patterns are held against: a name of a record, or a key, a
/// value or a pair of its tags or its metadata.
pub open spec fn is_text_of(record: BenchmarkRecordView, text: Seq<char>) -> bool {
    ||| text == record.id
    ||| text == record.adapter
    ||| text == record.suite
    ||| text == record.case
    ||| text == record.metric
    ||| text == record.source_file
    ||| record.scenario == Some(text)
    ||| is_text_in(record.tags, text)
    ||| is_text_in(record.metadata, text)
}

/// Whether a text is a key of a map, its value, or both with an equals sign between them.
pub open spec fn is_text_in(map: Map<Seq<char>, Seq<char>>, text: Seq<char>) -> bool {
    exists|key: Seq<char>| #[trigger]
        map.contains_key(key) && (text == key || text == map[key] || text == key + "="@ + map[key])
}

proof fn hit_text(pattern: Seq<char>, record: BenchmarkRecordView) -> (text: Seq<char>)
    requires
        super::config::hits_record(pattern, record),
    ensures
        is_text_of(record, text),
        pattern_match(pattern, text) is Some,
{
    let hits = |text: Seq<char>| pattern_match(pattern, text) is Some;
    if hits(record.id) {
        record.id
    } else if hits(record.adapter) {
        record.adapter
    } else if hits(record.suite) {
        record.suite
    } else if hits(record.case) {
        record.case
    } else if hits(record.metric) {
        record.metric
    } else if hits(record.source_file) {
        record.source_file
    } else if record.scenario is Some && hits(record.scenario->0) {
        record.scenario->0
    } else if super::config::hits_map(pattern, record.tags) {
        hit_in_map(pattern, record.tags)
    } else {
        hit_in_map(pattern, record.metadata)
    }
}

proof fn hit_in_map(pattern: Seq<char>, map: Map<Seq<char>, Seq<char>>) -> (text: Seq<char>)
    requires
        super::config::hits_map(pattern, map),
    ensures
        is_text_in(map, text),
        pattern_match(pattern, text) is Some,
{
    let hits = |text: Seq<char>| pattern_match(pattern, text) is Some;
    let key = choose|key: Seq<char>| #[trigger]
        map.contains_key(key) && (super::config::hits(pattern, key) || super::config::hits(
            pattern,
            map[key],
        ) || super::config::hits(pattern, key + "="@ + map[key]));
    if hits(key) {
        key
    } else if hits(map[key]) {
        map[key]
    } else {
        key + "="@ + map[key]
    }
}

proof fn text_hits(pattern: Seq<char>, record: BenchmarkRecordView, text: Seq<char>)
    requires
        is_text_of(record, text),
        pattern_match(pattern, text) is Some,
    ensures
        super::config::hits_record(pattern, record),
{
    assert(super::config::hits(pattern, text));
    if is_text_in(record.tags, text) {
        let key = choose|key: Seq<char>| #[trigger]
            record.tags.contains_key(key) && (text == key || text == record.tags[key] || text == key
                + "="@ + record.tags[key]);
        assert(super::config::hits_map(pattern, record.tags));
    }
    if is_text_in(record.metadata, text) {
        let key = choose|key: Seq<char>| #[trigger]
            record.metadata.contains_key(key) && (text == key || text == record.metadata[key]
                || text == key + "="@ + record.metadata[key]);
        assert(super::config::hits_map(pattern, record.metadata));
    }
}

/// A run ends well exactly where nothing is critical, new or missing; it becomes the
/// baseline exactly where it also can be relied on.
pub proof fn runs_end_well_without_surprises(
    records: Seq<BenchmarkRecordView>,
    summary: ComparisonSummary,
    config: &BenchSummaryConfig,
)
    ensures
        super::exit_code_of(summary) == 0 <==> summary.critical == 0 && summary.new == 0
            && summary.missing == 0,
        super::exit_code_of(summary) == 0 || super::exit_code_of(summary) == 1,
        super::becomes_baseline(records, summary, config) <==> super::exit_code_of(summary) == 0
            && run_trusted(records, config),
{
}

} // verus!
