//! Holds a run against a baseline.

use vstd::prelude::*;

use super::model::{
    BenchmarkDelta, BenchmarkDeltaView, BenchmarkManifest, BenchmarkManifestView, BenchmarkRecord,
    BenchmarkRecordView,
};
use super::numbers::{
    arithmetic, change_percent, computes, percent_above, Arithmetic, Number, Operation,
};
use crate::copies::{copy_option, option_view, Copied};
use crate::names::{entry, listed, Names};
use crate::order::{sort, sorted, sorted_is_permutation, Order};
use crate::seqs::{flat, keep, kept, last_where, mapped, take_all, take_step, views};
use crate::text::{
    after_first, before_first, contains, contains_text, head, less, order_of_three, pieces, same,
    split, tail, text_less_irreflexive, then_text,
};

verus! {

broadcast use {vstd::std_specs::vec::group_vec_axioms, crate::seqs::group_views};

/// What a run shows against a baseline.
pub struct ComparisonOutcome {
    pub deltas: Vec<BenchmarkDelta>,
    pub new_records: Vec<BenchmarkRecord>,
    pub missing_records: Vec<BenchmarkRecord>,
    pub probable_renames: Vec<ProbableRename>,
}

#[verifier::ext_equal]
pub struct ComparisonOutcomeView {
    pub deltas: Seq<BenchmarkDeltaView>,
    pub new_records: Seq<BenchmarkRecordView>,
    pub missing_records: Seq<BenchmarkRecordView>,
    pub probable_renames: Seq<ProbableRenameView>,
}

impl View for ComparisonOutcome {
    type V = ComparisonOutcomeView;

    open spec fn view(&self) -> ComparisonOutcomeView {
        ComparisonOutcomeView {
            deltas: views(self.deltas@),
            new_records: views(self.new_records@),
            missing_records: views(self.missing_records@),
            probable_renames: views(self.probable_renames@),
        }
    }
}

/// A baseline record and a new one whose names differ in one value only.
#[derive(Debug, Clone, PartialEq, Eq)]
pub struct ProbableRename {
    pub baseline_id: String,
    pub current_id: String,
    pub changed_key: String,
    pub baseline_value: String,
    pub current_value: String,
}

#[verifier::ext_equal]
pub struct ProbableRenameView {
    pub baseline_id: Seq<char>,
    pub current_id: Seq<char>,
    pub changed_key: Seq<char>,
    pub baseline_value: Seq<char>,
    pub current_value: Seq<char>,
}

impl View for ProbableRename {
    type V = ProbableRenameView;

    open spec fn view(&self) -> ProbableRenameView {
        ProbableRenameView {
            baseline_id: self.baseline_id@,
            current_id: self.current_id@,
            changed_key: self.changed_key@,
            baseline_value: self.baseline_value@,
            current_value: self.current_value@,
        }
    }
}

/// The record with an id; the last one where several have it.
pub open spec fn record_of(records: Seq<BenchmarkRecordView>, id: Seq<char>) -> Option<
    BenchmarkRecordView,
> {
    last_where(records, |r: BenchmarkRecordView| r.id == id)
}

/// The ids of some records.
pub open spec fn ids(records: Seq<BenchmarkRecordView>) -> Set<Seq<char>> {
    mapped(records, |r: BenchmarkRecordView| r.id).to_set()
}

pub(crate) fn find_record<'a>(records: &'a Vec<BenchmarkRecord>, id: &str) -> (r: Option<
    &'a BenchmarkRecord,
>)
    ensures
        match r {
            Some(found) => record_of(views(records@), id@) == Some(found@),
            None => record_of(views(records@), id@) is None,
        },
{
    let ghost p = |r: BenchmarkRecordView| r.id == id@;
    let ghost all = views(records@);
    let mut i: usize = records.len();
    proof {
        take_all(all);
    }
    while i > 0
        invariant
            p == (|r: BenchmarkRecordView| r.id == id@),
            all == views(records@),
            i <= records@.len(),
            last_where(all, p) == last_where(all.take(i as int), p),
        decreases i,
    {
        i -= 1;
        proof {
            take_step(all, i as int);
        }
        if same(records[i].id.as_str(), id) {
            return Some(&records[i]);
        }
    }
    None
}

/// Why a metric no longer means what it meant in the baseline.
pub open spec fn semantic_change(
    current: BenchmarkRecordView,
    baseline: BenchmarkRecordView,
) -> Option<Seq<char>> {
    let now = entry(current.metadata, "ns_per_op_basis"@);
    let then_basis = entry(baseline.metadata, "ns_per_op_basis"@);
    if now == then_basis {
        None
    } else {
        Some(
            "ns_per_op_basis changed from "@ + basis_text(then_basis) + " to "@ + basis_text(now)
                + "; refresh the baseline after confirming the semantic change is intentional"@,
        )
    }
}

pub open spec fn basis_text(basis: Option<Seq<char>>) -> Seq<char> {
    match basis {
        Some(text) => text,
        None => "<unset>"@,
    }
}

fn basis_or_unset(basis: Option<&String>) -> (r: String)
    ensures
        r@ == basis_text(option_view(basis)),
{
    match basis {
        Some(text) => text.clone(),
        None => "<unset>".to_owned(),
    }
}

fn semantic_change_reason(current: &BenchmarkRecord, baseline: &BenchmarkRecord) -> (r: Option<
    String,
>)
    ensures
        option_view(r) == semantic_change(current@, baseline@),
{
    let current_basis = current.metadata.get("ns_per_op_basis");
    let baseline_basis = baseline.metadata.get("ns_per_op_basis");
    let unchanged = match (current_basis, baseline_basis) {
        (Some(a), Some(b)) => same(a.as_str(), b.as_str()),
        (None, None) => true,
        _ => false,
    };
    if unchanged {
        return None;
    }
    let mut reason = "ns_per_op_basis changed from ".to_owned();
    reason.append(basis_or_unset(baseline_basis).as_str());
    reason.append(" to ");
    reason.append(basis_or_unset(current_basis).as_str());
    reason.append("; refresh the baseline after confirming the semantic change is intentional");
    Some(reason)
}

/// The value of a baseline record, where it can be compared with.
pub open spec fn usable_value(baseline: Option<BenchmarkRecordView>) -> Option<Number> {
    match baseline {
        Some(record) => if record.value.finite() && record.value.positive() {
            Some(record.value)
        } else {
            None
        },
        None => None,
    }
}

/// A record held against the record of the same id in the baseline.
pub open spec fn delta_of(
    record: BenchmarkRecordView,
    baseline: Option<BenchmarkRecordView>,
    arithmetic: Arithmetic,
) -> BenchmarkDeltaView {
    let change = match baseline {
        Some(known) => semantic_change(record, known),
        None => None,
    };
    let usable = usable_value(baseline);
    let delta = if change is Some {
        None
    } else {
        match usable {
            Some(value) => Some(percent_above(arithmetic, record.value, value)),
            None => None,
        }
    };
    BenchmarkDeltaView {
        id: record.id,
        suite: record.suite,
        case: record.case,
        metric: record.metric,
        baseline_value: usable,
        current_value: record.value,
        delta_pct: delta,
        directional_delta_pct: match delta {
            Some(value) => Some(record.metric_direction.directed(value)),
            None => None,
        },
        baseline_stability: match baseline {
            Some(known) => known.stability,
            None => None,
        },
        current_stability: record.stability,
        baseline_status: match baseline {
            Some(known) => known.status,
            None => None,
        },
        current_status: record.status,
        semantic_change: change,
    }
}

fn compare_record<C: Fn(Number, Operation, Number) -> Number>(
    record: &BenchmarkRecord,
    baseline: Option<&BenchmarkRecord>,
    compute: &C,
) -> (r: BenchmarkDelta)
    requires
        computes(*compute),
    ensures
        r@ == delta_of(record@, option_view(baseline), arithmetic(*compute)),
{
    let (baseline_value, change, stability, status) = match baseline {
        Some(known) => (
            if known.value.is_finite() && known.value.is_positive() {
                Some(known.value)
            } else {
                None
            },
            semantic_change_reason(record, known),
            copy_option(&known.stability),
            copy_option(&known.status),
        ),
        None => (None, None, None, None),
    };
    let delta_pct = if change.is_some() {
        None
    } else {
        match baseline_value {
            Some(value) => Some(change_percent(compute, record.value, value)),
            None => None,
        }
    };
    let directional_delta_pct = match delta_pct {
        Some(value) => Some(record.metric_direction.directional_delta(value)),
        None => None,
    };
    BenchmarkDelta {
        id: record.id.clone(),
        suite: record.suite.clone(),
        case: record.case.clone(),
        metric: record.metric.clone(),
        baseline_value,
        current_value: record.value,
        delta_pct,
        directional_delta_pct,
        baseline_stability: stability,
        current_stability: copy_option(&record.stability),
        baseline_status: status,
        current_status: copy_option(&record.status),
        semantic_change: change,
    }
}

/// Orders deltas by suite, case, metric and id.
pub struct DeltaOrder;

impl Order<BenchmarkDelta> for DeltaOrder {
    open spec fn before(a: BenchmarkDeltaView, b: BenchmarkDeltaView) -> bool {
        then_text(
            a.suite,
            b.suite,
            then_text(
                a.case,
                b.case,
                then_text(a.metric, b.metric, then_text(a.id, b.id, false)),
            ),
        )
    }

    fn is_before(a: &BenchmarkDelta, b: &BenchmarkDelta) -> (r: bool) {
        proof {
            text_less_irreflexive(a.suite@);
            text_less_irreflexive(a.case@);
            text_less_irreflexive(a.metric@);
            text_less_irreflexive(a.id@);
        }
        if !same(a.suite.as_str(), b.suite.as_str()) {
            return less(a.suite.as_str(), b.suite.as_str());
        }
        if !same(a.case.as_str(), b.case.as_str()) {
            return less(a.case.as_str(), b.case.as_str());
        }
        if !same(a.metric.as_str(), b.metric.as_str()) {
            return less(a.metric.as_str(), b.metric.as_str());
        }
        less(a.id.as_str(), b.id.as_str())
    }

    proof fn strict_weak(a: BenchmarkDeltaView, b: BenchmarkDeltaView, c: BenchmarkDeltaView) {
        order_of_three(a.suite, b.suite, c.suite);
        order_of_three(a.case, b.case, c.case);
        order_of_three(a.metric, b.metric, c.metric);
        order_of_three(a.id, b.id, c.id);
    }
}

/// Orders records by adapter, suite, case, metric and id.
pub struct RowOrder;

impl Order<BenchmarkRecord> for RowOrder {
    open spec fn before(a: BenchmarkRecordView, b: BenchmarkRecordView) -> bool {
        then_text(
            a.adapter,
            b.adapter,
            then_text(
                a.suite,
                b.suite,
                then_text(
                    a.case,
                    b.case,
                    then_text(a.metric, b.metric, then_text(a.id, b.id, false)),
                ),
            ),
        )
    }

    fn is_before(a: &BenchmarkRecord, b: &BenchmarkRecord) -> (r: bool) {
        proof {
            text_less_irreflexive(a.adapter@);
            text_less_irreflexive(a.suite@);
            text_less_irreflexive(a.case@);
            text_less_irreflexive(a.metric@);
            text_less_irreflexive(a.id@);
        }
        if !same(a.adapter.as_str(), b.adapter.as_str()) {
            return less(a.adapter.as_str(), b.adapter.as_str());
        }
        if !same(a.suite.as_str(), b.suite.as_str()) {
            return less(a.suite.as_str(), b.suite.as_str());
        }
        if !same(a.case.as_str(), b.case.as_str()) {
            return less(a.case.as_str(), b.case.as_str());
        }
        if !same(a.metric.as_str(), b.metric.as_str()) {
            return less(a.metric.as_str(), b.metric.as_str());
        }
        less(a.id.as_str(), b.id.as_str())
    }

    proof fn strict_weak(a: BenchmarkRecordView, b: BenchmarkRecordView, c: BenchmarkRecordView) {
        order_of_three(a.adapter, b.adapter, c.adapter);
        order_of_three(a.suite, b.suite, c.suite);
        order_of_three(a.case, b.case, c.case);
        order_of_three(a.metric, b.metric, c.metric);
        order_of_three(a.id, b.id, c.id);
    }
}

/// Orders renames by the id in the baseline and then by the new one.
pub struct RenameOrder;

impl Order<ProbableRename> for RenameOrder {
    open spec fn before(a: ProbableRenameView, b: ProbableRenameView) -> bool {
        then_text(a.baseline_id, b.baseline_id, then_text(a.current_id, b.current_id, false))
    }

    fn is_before(a: &ProbableRename, b: &ProbableRename) -> (r: bool) {
        proof {
            text_less_irreflexive(a.baseline_id@);
            text_less_irreflexive(a.current_id@);
        }
        if !same(a.baseline_id.as_str(), b.baseline_id.as_str()) {
            return less(a.baseline_id.as_str(), b.baseline_id.as_str());
        }
        less(a.current_id.as_str(), b.current_id.as_str())
    }

    proof fn strict_weak(a: ProbableRenameView, b: ProbableRenameView, c: ProbableRenameView) {
        order_of_three(a.baseline_id, b.baseline_id, c.baseline_id);
        order_of_three(a.current_id, b.current_id, c.current_id);
    }
}

/// The segments of two ids that differ, pair by pair.
pub open spec fn changed_segments(baseline: Seq<Seq<char>>, current: Seq<Seq<char>>) -> Seq<
    (Seq<char>, Seq<char>),
> {
    keep(
        Seq::new(baseline.len(), |i: int| (baseline[i], current[i])),
        |pair: (Seq<char>, Seq<char>)| pair.0 != pair.1,
    )
}

/// The key, the baseline's value and the new value of two ids that differ in the value of
/// one segment only.
pub open spec fn changed_value(baseline_id: Seq<char>, current_id: Seq<char>) -> Option<
    (Seq<char>, Seq<char>, Seq<char>),
> {
    let baseline = pieces(baseline_id, "|"@);
    let current = pieces(current_id, "|"@);
    let changed = changed_segments(baseline, current);
    if baseline.len() != current.len() || changed.len() != 1 {
        None
    } else {
        let (was, now) = changed[0];
        if contains_text(was, "="@) && contains_text(now, "="@) && before_first(was, "="@)
            == before_first(now, "="@) && after_first(was, "="@) != after_first(now, "="@) {
            Some((before_first(was, "="@), after_first(was, "="@), after_first(now, "="@)))
        } else {
            None
        }
    }
}

fn one_changed_key_value_segment(baseline_id: &str, current_id: &str) -> (r: Option<
    (String, String, String),
>)
    ensures
        match r {
            Some((key, was, now)) => changed_value(baseline_id@, current_id@) == Some(
                (key@, was@, now@),
            ),
            None => changed_value(baseline_id@, current_id@) is None,
        },
{
    proof {
        reveal_strlit("|");
        reveal_strlit("=");
    }
    let baseline = split(baseline_id, "|");
    let current = split(current_id, "|");
    if baseline.len() != current.len() {
        return None;
    }
    let ghost all = Seq::new(
        baseline@.len(),
        |i: int| (views(baseline@)[i], views(current@)[i]),
    );
    let ghost p = |pair: (Seq<char>, Seq<char>)| pair.0 != pair.1;
    let mut found: usize = 0;
    let mut count: usize = 0;
    let mut i: usize = 0;
    while i < baseline.len()
        invariant
            baseline@.len() == current@.len(),
            all == Seq::new(
                baseline@.len(),
                |i: int| (views(baseline@)[i], views(current@)[i]),
            ),
            p == (|pair: (Seq<char>, Seq<char>)| pair.0 != pair.1),
            i <= baseline@.len(),
            count <= i,
            count == keep(all.take(i as int), p).len(),
            count > 0 ==> found < i && keep(all.take(i as int), p)[count - 1] == all[found as int],
        decreases baseline@.len() - i,
    {
        proof {
            take_step(all, i as int);
        }
        if !same(baseline[i].as_str(), current[i].as_str()) {
            found = i;
            count += 1;
        }
        i += 1;
    }
    proof {
        take_all(all);
        assert(all =~= Seq::new(
            views(baseline@).len(),
            |i: int| (views(baseline@)[i], views(current@)[i]),
        ));
    }
    if count != 1 {
        return None;
    }
    let was = baseline[found].as_str();
    let now = current[found].as_str();
    if !contains(was, "=") || !contains(now, "=") {
        return None;
    }
    let key = head(was, "=");
    let before = tail(was, "=");
    let after = tail(now, "=");
    if same(key.as_str(), head(now, "=").as_str()) && !same(before.as_str(), after.as_str()) {
        Some((key, before, after))
    } else {
        None
    }
}

/// The rename that a new record and a missing one suggest, as a sequence of none or one.
pub open spec fn rename_of(current: BenchmarkRecordView, baseline: BenchmarkRecordView) -> Seq<
    ProbableRenameView,
> {
    if current.adapter != baseline.adapter || current.metric != baseline.metric {
        seq![]
    } else {
        match changed_value(baseline.id, current.id) {
            Some((key, was, now)) => seq![
                ProbableRenameView {
                    baseline_id: baseline.id,
                    current_id: current.id,
                    changed_key: key,
                    baseline_value: was,
                    current_value: now,
                },
            ],
            None => seq![],
        }
    }
}

/// The renames that new and missing records suggest.
pub open spec fn renames_of(
    new_records: Seq<BenchmarkRecordView>,
    missing_records: Seq<BenchmarkRecordView>,
) -> Seq<ProbableRenameView> {
    flat(
        new_records,
        |current: BenchmarkRecordView|
            flat(
                missing_records,
                |baseline: BenchmarkRecordView| rename_of(current, baseline),
            ),
    )
}

fn probable_rename(current: &BenchmarkRecord, baseline: &BenchmarkRecord) -> (r: Option<
    ProbableRename,
>)
    ensures
        match r {
            Some(found) => rename_of(current@, baseline@) == seq![found@],
            None => rename_of(current@, baseline@).len() == 0,
        },
{
    if !same(current.adapter.as_str(), baseline.adapter.as_str()) || !same(
        current.metric.as_str(),
        baseline.metric.as_str(),
    ) {
        return None;
    }
    match one_changed_key_value_segment(baseline.id.as_str(), current.id.as_str()) {
        Some((changed_key, baseline_value, current_value)) => Some(
            ProbableRename {
                baseline_id: baseline.id.clone(),
                current_id: current.id.clone(),
                changed_key,
                baseline_value,
                current_value,
            },
        ),
        None => None,
    }
}

fn probable_renames(
    new_records: &Vec<BenchmarkRecord>,
    missing_records: &Vec<BenchmarkRecord>,
) -> (r: Vec<ProbableRename>)
    ensures
        views(r@) == sorted::<ProbableRename, RenameOrder>(
            renames_of(views(new_records@), views(missing_records@)),
        ),
{
    let ghost fresh = views(new_records@);
    let ghost gone = views(missing_records@);
    let ghost outer = |current: BenchmarkRecordView|
        flat(gone, |baseline: BenchmarkRecordView| rename_of(current, baseline));
    let mut out: Vec<ProbableRename> = Vec::new();
    let mut i: usize = 0;
    while i < new_records.len()
        invariant
            fresh == views(new_records@),
            gone == views(missing_records@),
            outer == (|current: BenchmarkRecordView|
                flat(gone, |baseline: BenchmarkRecordView| rename_of(current, baseline))),
            i <= new_records@.len(),
            views(out@) == flat(fresh.take(i as int), outer),
        decreases new_records@.len() - i,
    {
        proof {
            take_step(fresh, i as int);
        }
        let ghost start = views(out@);
        let ghost inner = |baseline: BenchmarkRecordView| rename_of(fresh[i as int], baseline);
        let mut j: usize = 0;
        assert(start =~= start + flat(gone.take(0), inner));
        while j < missing_records.len()
            invariant
                fresh == views(new_records@),
                gone == views(missing_records@),
                i < new_records@.len(),
                inner == (|baseline: BenchmarkRecordView| rename_of(fresh[i as int], baseline)),
                j <= missing_records@.len(),
                views(out@) == start + flat(gone.take(j as int), inner),
            decreases missing_records@.len() - j,
        {
            proof {
                take_step(gone, j as int);
            }
            match probable_rename(&new_records[i], &missing_records[j]) {
                Some(rename) => {
                    out.push(rename);
                },
                None => {},
            }
            j += 1;
            assert(views(out@) =~= start + flat(gone.take(j as int), inner));
        }
        proof {
            take_all(gone);
        }
        i += 1;
    }
    proof {
        take_all(fresh);
    }
    sort::<ProbableRename, RenameOrder>(out)
}

/// The records of a baseline, none where there is no baseline.
pub open spec fn baseline_records(baseline: Option<BenchmarkManifestView>) -> Seq<
    BenchmarkRecordView,
> {
    match baseline {
        Some(manifest) => manifest.records,
        None => seq![],
    }
}

/// The records whose ids a baseline does not have.
pub open spec fn new_in(
    current: Seq<BenchmarkRecordView>,
    baseline: Seq<BenchmarkRecordView>,
) -> Seq<BenchmarkRecordView> {
    keep(current, |r: BenchmarkRecordView| record_of(baseline, r.id) is None)
}

/// The records of a baseline whose ids the run does not have, one for each id.
pub open spec fn missing_in(
    current: Seq<BenchmarkRecordView>,
    baseline: Seq<BenchmarkRecordView>,
) -> Seq<BenchmarkRecordView> {
    mapped(
        keep(listed(ids(baseline)), |id: Seq<char>| !ids(current).contains(id)),
        |id: Seq<char>| record_of(baseline, id)->Some_0,
    )
}

/// What a run shows against a baseline.
pub open spec fn comparison_of(
    current: Seq<BenchmarkRecordView>,
    baseline: Seq<BenchmarkRecordView>,
    arithmetic: Arithmetic,
) -> ComparisonOutcomeView {
    let missing = sorted::<BenchmarkRecord, RowOrder>(missing_in(current, baseline));
    ComparisonOutcomeView {
        deltas: sorted::<BenchmarkDelta, DeltaOrder>(
            mapped(
                current,
                |r: BenchmarkRecordView| delta_of(r, record_of(baseline, r.id), arithmetic),
            ),
        ),
        new_records: new_in(current, baseline),
        missing_records: missing,
        probable_renames: sorted::<ProbableRename, RenameOrder>(
            renames_of(new_in(current, baseline), missing),
        ),
    }
}

pub(crate) fn collect_ids(records: &Vec<BenchmarkRecord>) -> (r: Names)
    ensures
        r@ == ids(views(records@)),
{
    let ghost all = mapped(views(records@), |r: BenchmarkRecordView| r.id);
    let mut r = Names::new();
    let mut i: usize = 0;
    assert(all.take(0).to_set() =~= Set::<Seq<char>>::empty());
    while i < records.len()
        invariant
            all == mapped(views(records@), |r: BenchmarkRecordView| r.id),
            i <= records@.len(),
            r@ == all.take(i as int).to_set(),
        decreases records@.len() - i,
    {
        proof {
            take_step(all, i as int);
            crate::names::set_of_push(all.take(i as int), all[i as int]);
        }
        r.insert(records[i].id.clone());
        i += 1;
    }
    proof {
        take_all(all);
    }
    r
}

/// The last record with an id is there exactly where some record has that id.
pub proof fn record_of_an_id(records: Seq<BenchmarkRecordView>, id: Seq<char>)
    ensures
        record_of(records, id) is Some <==> ids(records).contains(id),
        record_of(records, id) matches Some(found) ==> found.id == id && records.contains(found),
    decreases records.len(),
{
    let f = |r: BenchmarkRecordView| r.id;
    let all = mapped(records, f);
    if records.len() > 0 {
        let rest = records.drop_last();
        record_of_an_id(rest, id);
        assert(mapped(rest, f) =~= all.drop_last());
        assert(all =~= mapped(rest, f).push(records.last().id));
        crate::names::set_of_push(mapped(rest, f), records.last().id);
        assert(records[records.len() - 1] == records.last());
        if record_of(rest, id) is Some {
            let found = record_of(rest, id)->Some_0;
            let k = rest.index_of(found);
            assert(records[k] == found);
        }
    } else {
        assert(all.to_set() =~= Set::<Seq<char>>::empty());
    }
}

fn collect_missing(current: &Vec<BenchmarkRecord>, baseline: &Vec<BenchmarkRecord>) -> (r: Vec<
    BenchmarkRecord,
>)
    ensures
        views(r@) == missing_in(views(current@), views(baseline@)),
{
    let present = collect_ids(current);
    let known = collect_ids(baseline);
    let list = known.as_vec();
    let ghost all = views(list@);
    let ghost p = |id: Seq<char>| !ids(views(current@)).contains(id);
    let ghost f = |id: Seq<char>| record_of(views(baseline@), id)->Some_0;
    let mut out: Vec<BenchmarkRecord> = Vec::new();
    let mut i: usize = 0;
    assert(views(out@) =~= mapped(keep(all.take(0), p), f));
    while i < list.len()
        invariant
            present@ == ids(views(current@)),
            all == views(list@),
            all.to_set() == ids(views(baseline@)),
            p == (|id: Seq<char>| !ids(views(current@)).contains(id)),
            f == (|id: Seq<char>| record_of(views(baseline@), id)->Some_0),
            i <= list@.len(),
            views(out@) == mapped(keep(all.take(i as int), p), f),
        decreases list@.len() - i,
    {
        proof {
            take_step(all, i as int);
            assert(all.contains(all[i as int]));
            record_of_an_id(views(baseline@), all[i as int]);
        }
        if !present.contains(list[i].as_str()) {
            match find_record(baseline, list[i].as_str()) {
                Some(record) => {
                    out.push(record.copied());
                },
                None => {},
            }
        }
        i += 1;
        assert(views(out@) =~= mapped(keep(all.take(i as int), p), f));
    }
    proof {
        take_all(all);
    }
    out
}

/// Holds the records of a run against those of a baseline.
pub fn compare_records<C: Fn(Number, Operation, Number) -> Number>(
    current: &Vec<BenchmarkRecord>,
    baseline: Option<&BenchmarkManifest>,
    compute: &C,
) -> (r: ComparisonOutcome)
    requires
        computes(*compute),
    ensures
        r@ == comparison_of(
            views(current@),
            baseline_records(option_view(baseline)),
            arithmetic(*compute),
        ),
{
    let none: Vec<BenchmarkRecord> = Vec::new();
    let known: &Vec<BenchmarkRecord> = match baseline {
        Some(manifest) => &manifest.records,
        None => &none,
    };
    let ghost before = views(known@);
    assert(before =~= baseline_records(option_view(baseline)));
    let ghost all = views(current@);
    let ghost f = |r: BenchmarkRecordView|
        delta_of(r, record_of(before, r.id), arithmetic(*compute));
    let ghost p = |r: BenchmarkRecordView| record_of(before, r.id) is None;
    let mut deltas: Vec<BenchmarkDelta> = Vec::new();
    let mut new_records: Vec<BenchmarkRecord> = Vec::new();
    let mut i: usize = 0;
    assert(views(deltas@) =~= mapped(all.take(0), f));
    while i < current.len()
        invariant
            computes(*compute),
            before == views(known@),
            all == views(current@),
            f == (|r: BenchmarkRecordView|
                delta_of(r, record_of(before, r.id), arithmetic(*compute))),
            p == (|r: BenchmarkRecordView| record_of(before, r.id) is None),
            i <= current@.len(),
            views(deltas@) == mapped(all.take(i as int), f),
            views(new_records@) == keep(all.take(i as int), p),
        decreases current@.len() - i,
    {
        proof {
            take_step(all, i as int);
        }
        let found = find_record(known, current[i].id.as_str());
        if found.is_none() {
            new_records.push(current[i].copied());
        }
        deltas.push(compare_record(&current[i], found, compute));
        i += 1;
        assert(views(deltas@) =~= mapped(all.take(i as int), f));
    }
    proof {
        take_all(all);
    }
    let missing_records = sort::<BenchmarkRecord, RowOrder>(collect_missing(current, known));
    let renames = probable_renames(&new_records, &missing_records);
    ComparisonOutcome {
        deltas: sort::<BenchmarkDelta, DeltaOrder>(deltas),
        new_records,
        missing_records,
        probable_renames: renames,
    }
}

/// Every record of a run has one delta.
pub proof fn every_record_has_a_delta(
    current: Seq<BenchmarkRecordView>,
    baseline: Seq<BenchmarkRecordView>,
    arithmetic: Arithmetic,
)
    ensures
        comparison_of(current, baseline, arithmetic).deltas.len() == current.len(),
{
    sorted_is_permutation::<BenchmarkDelta, DeltaOrder>(
        mapped(
            current,
            |r: BenchmarkRecordView| delta_of(r, record_of(baseline, r.id), arithmetic),
        ),
    );
}

/// A run held against itself has nothing new and misses nothing.
pub proof fn compared_with_itself_nothing_is_new_or_missing(
    records: Seq<BenchmarkRecordView>,
    arithmetic: Arithmetic,
)
    ensures
        comparison_of(records, records, arithmetic).new_records.len() == 0,
        comparison_of(records, records, arithmetic).missing_records.len() == 0,
        comparison_of(records, records, arithmetic).probable_renames.len() == 0,
{
    let p = |r: BenchmarkRecordView| record_of(records, r.id) is None;
    kept(records, p);
    if keep(records, p).len() > 0 {
        let r = keep(records, p)[0];
        let k = records.index_of(r);
        let all = mapped(records, |r: BenchmarkRecordView| r.id);
        assert(all[k] == r.id);
        record_of_an_id(records, r.id);
    }
    let names = listed(ids(records));
    let q = |id: Seq<char>| !ids(records).contains(id);
    kept(names, q);
    listed_names(records);
    if keep(names, q).len() > 0 {
        let id = keep(names, q)[0];
        assert(names.to_set().contains(id));
    }
    sorted_is_permutation::<BenchmarkRecord, RowOrder>(missing_in(records, records));
    sorted_is_permutation::<ProbableRename, RenameOrder>(
        renames_of(new_in(records, records), seq![]),
    );
    assert(comparison_of(records, records, arithmetic).missing_records =~= seq![]);
    assert(new_in(records, records) =~= seq![]);
}

/// The ids of some records can be listed.
proof fn listed_names(records: Seq<BenchmarkRecordView>)
    ensures
        listed(ids(records)).to_set() == ids(records),
        crate::names::ascending(listed(ids(records))),
{
    let all = mapped(records, |r: BenchmarkRecordView| r.id);
    crate::names::listed_exists(all);
}

/// A record that is new and one that is missing never have the same id.
pub proof fn new_and_missing_differ(
    current: Seq<BenchmarkRecordView>,
    baseline: Seq<BenchmarkRecordView>,
    i: int,
    j: int,
)
    requires
        0 <= i < new_in(current, baseline).len(),
        0 <= j < missing_in(current, baseline).len(),
    ensures
        new_in(current, baseline)[i].id != missing_in(current, baseline)[j].id,
{
    let p = |r: BenchmarkRecordView| record_of(baseline, r.id) is None;
    kept(current, p);
    let names = listed(ids(baseline));
    let q = |id: Seq<char>| !ids(current).contains(id);
    kept(names, q);
    listed_names(baseline);
    let id = keep(names, q)[j];
    assert(names.to_set().contains(id));
    record_of_an_id(baseline, id);
    record_of_an_id(baseline, new_in(current, baseline)[i].id);
}

} // verus!
