//! Benchmarks that were run with several values of a parameter.

use vstd::prelude::*;

use super::config::{BenchSummaryConfig, SweepNamePatternView};
use super::model::{
    BenchmarkRecord, BenchmarkRecordView, SweepGroup, SweepGroupView, SweepPoint, SweepPointView,
};
use super::numbers::{
    arithmetic, change_percent, computed, computes, percent_above, read_number, reading, reads,
    Arithmetic, Number, Operation, Reading,
};
use crate::copies::{copy_option, option_view, Copied};
use crate::names::{entry, listed, NameMap, Names};
use crate::order::{sort, sorted, sorted_in_order, sorted_is_permutation, Order};
use crate::patterns::{pattern_group, pattern_match};
use crate::seqs::{
    any, first_where, first_where_at, first_where_none, flat, keep, mapped, take_all, take_step,
    views,
};
use crate::text::{
    chars, ends_with, has_suffix, join, joined, less, lowercase, order_of_three, remove_first, same,
    slice, strip_end, strip_start, to_lower, trim, trim_char, trimmed, without_first,
};

verus! {

broadcast use {vstd::std_specs::vec::group_vec_axioms, crate::seqs::group_views};

/// The bits of 1.
pub const UNIT: u64 = 0x3ff0_0000_0000_0000;

/// The bits of 1,000.
pub const THOUSAND: u64 = 0x408f_4000_0000_0000;

/// The bits of 1,000,000.
pub const MILLION: u64 = 0x412e_8480_0000_0000;

/// The bits of 1,024.
pub const KIBI: u64 = 0x4090_0000_0000_0000;

/// The bits of 1,048,576.
pub const MEBI: u64 = 0x4130_0000_0000_0000;

pub open spec fn is_token_char(c: char) -> bool {
    'a' <= c <= 'z' || 'A' <= c <= 'Z' || '0' <= c <= '9' || c == '.'
}

/// The letters, digits and points that a text starts with.
pub open spec fn leading_token(s: Seq<char>) -> Seq<char>
    decreases s.len(),
{
    if s.len() > 0 && is_token_char(s[0]) {
        seq![s[0]] + leading_token(s.skip(1))
    } else {
        seq![]
    }
}

fn token_char(c: char) -> (r: bool)
    ensures
        r == is_token_char(c),
{
    ('a' <= c && c <= 'z') || ('A' <= c && c <= 'Z') || ('0' <= c && c <= '9') || c == '.'
}

fn first_token(s: &str) -> (r: String)
    ensures
        r@ == leading_token(s@),
{
    let all = chars(s);
    let mut n: usize = 0;
    assert(s@.take(0) + leading_token(s@.skip(0)) =~= leading_token(s@)) by {
        assert(s@.skip(0) =~= s@);
    }
    while n < all.len() && token_char(all[n])
        invariant
            all@ == s@,
            n <= all@.len(),
            s@.take(n as int) + leading_token(s@.skip(n as int)) == leading_token(s@),
        decreases all@.len() - n,
    {
        proof {
            assert(s@.skip(n as int).skip(1) =~= s@.skip(n as int + 1));
            assert(s@.take(n as int) + (seq![s@[n as int]] + leading_token(s@.skip(n as int + 1)))
                =~= s@.take(n as int + 1) + leading_token(s@.skip(n as int + 1)));
        }
        n += 1;
    }
    assert(s@.take(n as int) + leading_token(s@.skip(n as int)) =~= s@.take(n as int));
    let r = slice(all.as_slice(), 0, n);
    assert(r@ =~= s@.take(n as int));
    r
}

/// The number part of a token and the bits of what its unit multiplies it by.
pub open spec fn token_parts(token: Seq<char>) -> (Seq<char>, u64) {
    if has_suffix(token, "kb"@) {
        (token.take(token.len() - 2), KIBI)
    } else if has_suffix(token, "mb"@) {
        (token.take(token.len() - 2), MEBI)
    } else if has_suffix(token, "b"@) {
        (token.take(token.len() - 1), UNIT)
    } else if has_suffix(token, "k"@) {
        (token.take(token.len() - 1), THOUSAND)
    } else if has_suffix(token, "m"@) {
        (token.take(token.len() - 1), MILLION)
    } else {
        (token, UNIT)
    }
}

/// The number that a label starts with.
pub open spec fn numeric_token(label: Seq<char>, arithmetic: Arithmetic, reading: Reading) -> Option<
    Number,
> {
    let token = leading_token(lowercase(trimmed(label)));
    if token.len() == 0 {
        None
    } else {
        match reading(token_parts(token).0) {
            Some(value) => Some(
                arithmetic(value, Operation::Product, Number { bits: token_parts(token).1 }),
            ),
            None => None,
        }
    }
}

/// The number that a label such as `64`, `16kb` or `1.5m` starts with.
pub fn parse_numeric_token<C, R>(label: &str, compute: &C, read: &R) -> (r: Option<Number>) where
    C: Fn(Number, Operation, Number) -> Number,
    R: Fn(String) -> Option<Number>,

    requires
        computes(*compute),
        reads(*read),
    ensures
        r == numeric_token(label@, arithmetic(*compute), reading(*read)),
{
    proof {
        reveal_strlit("kb");
        reveal_strlit("mb");
        reveal_strlit("b");
        reveal_strlit("k");
        reveal_strlit("m");
    }
    let token = first_token(to_lower(trim(label).as_str()).as_str());
    let all = chars(token.as_str());
    let size: usize = all.len();
    if size == 0 {
        return None;
    }
    let (cut, bits): (usize, u64) = if ends_with(token.as_str(), "kb") {
        (2, KIBI)
    } else if ends_with(token.as_str(), "mb") {
        (2, MEBI)
    } else if ends_with(token.as_str(), "b") {
        (1, UNIT)
    } else if ends_with(token.as_str(), "k") {
        (1, THOUSAND)
    } else if ends_with(token.as_str(), "m") {
        (1, MILLION)
    } else {
        (0, UNIT)
    };
    let digits = slice(all.as_slice(), 0, size - cut);
    assert(digits@ =~= token_parts(token@).0);
    match read_number(read, digits) {
        Some(value) => Some(computed(compute, value, Operation::Product, Number { bits })),
        None => None,
    }
}

/// A record as one point of a group.
pub struct SweepEntry {
    pub key: String,
    pub title: String,
    pub metric: String,
    pub unit: String,
    pub point: SweepPoint,
}

#[verifier::ext_equal]
pub struct SweepEntryView {
    pub key: Seq<char>,
    pub title: Seq<char>,
    pub metric: Seq<char>,
    pub unit: Seq<char>,
    pub point: SweepPointView,
}

impl View for SweepEntry {
    type V = SweepEntryView;

    open spec fn view(&self) -> SweepEntryView {
        SweepEntryView {
            key: self.key@,
            title: self.title@,
            metric: self.metric@,
            unit: self.unit@,
            point: self.point@,
        }
    }
}

/// The entry of a record under a parameter and a context.
pub open spec fn entry_of(
    record: BenchmarkRecordView,
    parameter: Seq<char>,
    label: Seq<char>,
    value: Number,
    context: Seq<char>,
) -> SweepEntryView {
    SweepEntryView {
        key: record.adapter + "|"@ + record.suite + "|"@ + record.metric + "|"@ + record.unit + "|"@
            + parameter + "|"@ + context,
        title: record.adapter + " / "@ + record.suite + " / "@ + context + " ("@ + parameter + ", "@
            + record.metric + ")"@,
        metric: record.metric,
        unit: record.unit,
        point: SweepPointView {
            parameter,
            parameter_label: label,
            parameter_value: value,
            metric_value: record.value,
            delta_vs_previous_pct: None,
            rel_stddev: record.rel_stddev,
            samples: record.samples,
            status: record.status,
        },
    }
}

fn make_entry(
    record: &BenchmarkRecord,
    parameter: &str,
    label: &str,
    value: Number,
    context: &str,
) -> (r: SweepEntry)
    ensures
        r@ == entry_of(record@, parameter@, label@, value, context@),
{
    let mut key = record.adapter.clone();
    key.append("|");
    key.append(record.suite.as_str());
    key.append("|");
    key.append(record.metric.as_str());
    key.append("|");
    key.append(record.unit.as_str());
    key.append("|");
    key.append(parameter);
    key.append("|");
    key.append(context);
    let mut title = record.adapter.clone();
    title.append(" / ");
    title.append(record.suite.as_str());
    title.append(" / ");
    title.append(context);
    title.append(" (");
    title.append(parameter);
    title.append(", ");
    title.append(record.metric.as_str());
    title.append(")");
    SweepEntry {
        key,
        title,
        metric: record.metric.clone(),
        unit: record.unit.clone(),
        point: SweepPoint {
            parameter: parameter.to_owned(),
            parameter_label: label.to_owned(),
            parameter_value: value,
            metric_value: record.value,
            delta_vs_previous_pct: None,
            rel_stddev: record.rel_stddev,
            samples: record.samples,
            status: copy_option(&record.status),
        },
    }
}

/// Whether a tag holds a parameter.
pub open spec fn is_sweep_key(key: Seq<char>, config: &BenchSummaryConfig) -> bool {
    config.sweep.tag_keys@.contains(key) || any(
        views(config.sweep.tag_key_suffixes@),
        |suffix: Seq<char>| has_suffix(key, suffix),
    )
}

fn is_sweep_tag_key(key: &str, config: &BenchSummaryConfig) -> (r: bool)
    ensures
        r == is_sweep_key(key@, config),
{
    if config.sweep.tag_keys.contains(key) {
        return true;
    }
    let suffixes = &config.sweep.tag_key_suffixes;
    let ghost p = |suffix: Seq<char>| has_suffix(key@, suffix);
    let mut i: usize = 0;
    while i < suffixes.len()
        invariant
            suffixes == &config.sweep.tag_key_suffixes,
            p == (|suffix: Seq<char>| has_suffix(key@, suffix)),
            i <= suffixes@.len(),
            forall|j: int| 0 <= j < i ==> !p(#[trigger] views(suffixes@)[j]),
        decreases suffixes@.len() - i,
    {
        if ends_with(key, suffixes[i].as_str()) {
            assert(p(views(suffixes@)[i as int]));
            return true;
        }
        i += 1;
    }
    false
}

/// The tags that tell groups of the same name apart.
pub open spec fn qualifiers(tags: Map<Seq<char>, Seq<char>>, keys: Seq<Seq<char>>) -> Seq<
    Seq<char>,
> {
    flat(
        keys,
        |key: Seq<char>|
            match entry(tags, key) {
                Some(value) => seq![key + "="@ + value],
                None => seq![],
            },
    )
}

/// A name with the tags that tell it apart.
pub open spec fn qualified(
    base: Seq<char>,
    tags: Map<Seq<char>, Seq<char>>,
    config: &BenchSummaryConfig,
) -> Seq<char> {
    let words = qualifiers(tags, views(config.sweep.context_tag_keys@));
    if words.len() == 0 {
        base
    } else {
        base + " ["@ + joined(words, ", "@) + "]"@
    }
}

fn qualify(base: &str, tags: &NameMap<String>, config: &BenchSummaryConfig) -> (r: String)
    ensures
        r@ == qualified(base@, tags@, config),
{
    let keys = &config.sweep.context_tag_keys;
    let ghost all = views(keys@);
    let ghost f = |key: Seq<char>|
        match entry(tags@, key) {
            Some(value) => seq![key + "="@ + value],
            None => seq![],
        };
    let mut words: Vec<String> = Vec::new();
    let mut i: usize = 0;
    while i < keys.len()
        invariant
            all == views(keys@),
            f == (|key: Seq<char>|
                match entry(tags@, key) {
                    Some(value) => seq![key + "="@ + value],
                    None => seq![],
                }),
            i <= keys@.len(),
            views(words@) == flat(all.take(i as int), f),
        decreases keys@.len() - i,
    {
        proof {
            take_step(all, i as int);
        }
        let ghost before = views(words@);
        match tags.get(keys[i].as_str()) {
            Some(value) => {
                let mut word = keys[i].clone();
                word.append("=");
                word.append(value.as_str());
                words.push(word);
            },
            None => {},
        }
        assert(views(words@) =~= before + f(all[i as int]));
        i += 1;
    }
    proof {
        take_all(all);
        assert(views(words@) == qualifiers(tags@, all));
    }
    let mut out = base.to_owned();
    if words.len() > 0 {
        out.append(" [");
        out.append(join(&words, ", ").as_str());
        out.append("]");
    }
    out
}

/// What a record is called in a group told by tags.
pub open spec fn tag_base(record: BenchmarkRecordView) -> Seq<char> {
    match record.scenario {
        Some(scenario) => if scenario.len() > 0 {
            scenario
        } else {
            record.case
        },
        None => record.case,
    }
}

fn tag_sweep_context(record: &BenchmarkRecord, config: &BenchSummaryConfig) -> (r: String)
    ensures
        r@ == qualified(tag_base(record@), record@.tags, config),
{
    let base = match &record.scenario {
        Some(scenario) => if chars(scenario.as_str()).len() > 0 {
            scenario.as_str()
        } else {
            record.case.as_str()
        },
        None => record.case.as_str(),
    };
    qualify(base, &record.tags, config)
}

/// The entry of a record under one of its tags, as a sequence of none or one.
pub open spec fn tag_entry(
    record: BenchmarkRecordView,
    key: Seq<char>,
    config: &BenchSummaryConfig,
    arithmetic: Arithmetic,
    reading: Reading,
) -> Seq<SweepEntryView> {
    if !is_sweep_key(key, config) {
        seq![]
    } else {
        match numeric_token(record.tags[key], arithmetic, reading) {
            Some(value) => seq![
                entry_of(
                    record,
                    key,
                    record.tags[key],
                    value,
                    qualified(tag_base(record), record.tags, config),
                ),
            ],
            None => seq![],
        }
    }
}

/// The entries of a record under its tags.
pub open spec fn tag_entries(
    record: BenchmarkRecordView,
    config: &BenchSummaryConfig,
    arithmetic: Arithmetic,
    reading: Reading,
) -> Seq<SweepEntryView> {
    flat(
        listed(record.tags.dom()),
        |key: Seq<char>| tag_entry(record, key, config, arithmetic, reading),
    )
}

fn collect_tag_entries<C, R>(
    record: &BenchmarkRecord,
    config: &BenchSummaryConfig,
    compute: &C,
    read: &R,
) -> (r: Vec<SweepEntry>) where
    C: Fn(Number, Operation, Number) -> Number,
    R: Fn(String) -> Option<Number>,

    requires
        computes(*compute),
        reads(*read),
    ensures
        views(r@) == tag_entries(record@, config, arithmetic(*compute), reading(*read)),
{
    let names = record.tags.names();
    let keys = names.as_vec();
    let ghost all = views(keys@);
    let ghost f = |key: Seq<char>|
        tag_entry(record@, key, config, arithmetic(*compute), reading(*read));
    let mut out: Vec<SweepEntry> = Vec::new();
    let mut i: usize = 0;
    while i < keys.len()
        invariant
            computes(*compute),
            reads(*read),
            all == views(keys@),
            all.to_set() == record@.tags.dom(),
            f == (|key: Seq<char>|
                tag_entry(record@, key, config, arithmetic(*compute), reading(*read))),
            i <= keys@.len(),
            views(out@) == flat(all.take(i as int), f),
        decreases keys@.len() - i,
    {
        proof {
            take_step(all, i as int);
            assert(all.contains(all[i as int]));
            assert(record@.tags.dom().contains(all[i as int]));
        }
        let ghost before = views(out@);
        let key = keys[i].as_str();
        if is_sweep_tag_key(key, config) {
            match record.tags.get(key) {
                Some(label) => match parse_numeric_token(label.as_str(), compute, read) {
                    Some(value) => {
                        let context = tag_sweep_context(record, config);
                        out.push(
                            make_entry(record, key, label.as_str(), value, context.as_str()),
                        );
                    },
                    None => {},
                },
                None => {},
            }
        }
        assert(views(out@) =~= before + f(all[i as int]));
        i += 1;
    }
    proof {
        take_all(all);
    }
    out
}

/// A name without what a pattern matched in it.
pub open spec fn family_of(source: Seq<char>, matched: Seq<char>, fallback: Seq<char>) -> Seq<char> {
    let family = strip_end(strip_start(without_first(source, matched), '_'), '_');
    if family.len() == 0 {
        fallback
    } else {
        family
    }
}

fn scenario_family_without_sweep_token(source: &str, matched: &str, fallback: &str) -> (r: String)
    ensures
        r@ == family_of(source@, matched@, fallback@),
{
    let family = trim_char(remove_first(source, matched).as_str(), '_');
    if chars(family.as_str()).len() == 0 {
        fallback.to_owned()
    } else {
        family
    }
}

/// The entry of a record whose name a pattern matches, as a sequence of none or one.
pub open spec fn pattern_entry(
    record: BenchmarkRecordView,
    pattern: SweepNamePatternView,
    lowered: Seq<char>,
    config: &BenchSummaryConfig,
    arithmetic: Arithmetic,
    reading: Reading,
) -> Seq<SweepEntryView> {
    let prefix = match pattern.prefix_capture {
        Some(name) => match pattern_group(pattern.regex, lowered, name) {
            Some(text) => text,
            None => pattern.parameter,
        },
        None => pattern.parameter,
    };
    let label = match pattern_group(pattern.regex, lowered, pattern.value_capture) {
        Some(text) => text,
        None => ""@,
    };
    let matched = match pattern_match(pattern.regex, lowered) {
        Some(text) => text,
        None => ""@,
    };
    match numeric_token(label, arithmetic, reading) {
        Some(value) => seq![
            entry_of(
                record,
                pattern.parameter,
                label,
                value,
                qualified(family_of(lowered, matched, prefix), record.tags, config),
            ),
        ],
        None => seq![],
    }
}

/// The name in which the value of a parameter is looked for.
pub open spec fn pattern_source(record: BenchmarkRecordView) -> Seq<char> {
    lowercase(
        match record.scenario {
            Some(scenario) => scenario,
            None => record.case,
        },
    )
}

/// The entry that a record has by its name.
pub open spec fn name_entries(
    record: BenchmarkRecordView,
    config: &BenchSummaryConfig,
    arithmetic: Arithmetic,
    reading: Reading,
) -> Seq<SweepEntryView> {
    let lowered = pattern_source(record);
    match first_where(
        views(config.sweep.name_patterns@),
        |p: SweepNamePatternView| pattern_match(p.regex, lowered) is Some,
    ) {
        Some(pattern) => pattern_entry(record, pattern, lowered, config, arithmetic, reading),
        None => seq![],
    }
}

fn collect_pattern_entry<C, R>(
    record: &BenchmarkRecord,
    index: usize,
    lowered: &str,
    config: &BenchSummaryConfig,
    compute: &C,
    read: &R,
) -> (r: Vec<SweepEntry>) where
    C: Fn(Number, Operation, Number) -> Number,
    R: Fn(String) -> Option<Number>,

    requires
        computes(*compute),
        reads(*read),
        index < config.sweep.name_patterns@.len(),
    ensures
        views(r@) == pattern_entry(
            record@,
            views(config.sweep.name_patterns@)[index as int],
            lowered@,
            config,
            arithmetic(*compute),
            reading(*read),
        ),
{
    let pattern = &config.sweep.name_patterns[index];
    let prefix = match &pattern.prefix_capture {
        Some(name) => match pattern.regex.group(lowered, name.as_str()) {
            Some(text) => text,
            None => pattern.parameter.clone(),
        },
        None => pattern.parameter.clone(),
    };
    let label = match pattern.regex.group(lowered, pattern.value_capture.as_str()) {
        Some(text) => text,
        None => "".to_owned(),
    };
    let matched = match pattern.regex.find(lowered) {
        Some(text) => text,
        None => "".to_owned(),
    };
    let mut out: Vec<SweepEntry> = Vec::new();
    match parse_numeric_token(label.as_str(), compute, read) {
        Some(value) => {
            let family = scenario_family_without_sweep_token(
                lowered,
                matched.as_str(),
                prefix.as_str(),
            );
            let context = qualify(family.as_str(), &record.tags, config);
            out.push(
                make_entry(
                    record,
                    pattern.parameter.as_str(),
                    label.as_str(),
                    value,
                    context.as_str(),
                ),
            );
        },
        None => {},
    }
    assert(views(out@) =~= pattern_entry(
        record@,
        views(config.sweep.name_patterns@)[index as int],
        lowered@,
        config,
        arithmetic(*compute),
        reading(*read),
    ));
    out
}

fn collect_name_entries<C, R>(
    record: &BenchmarkRecord,
    config: &BenchSummaryConfig,
    compute: &C,
    read: &R,
) -> (r: Vec<SweepEntry>) where
    C: Fn(Number, Operation, Number) -> Number,
    R: Fn(String) -> Option<Number>,

    requires
        computes(*compute),
        reads(*read),
    ensures
        views(r@) == name_entries(record@, config, arithmetic(*compute), reading(*read)),
{
    let source = match &record.scenario {
        Some(scenario) => scenario.as_str(),
        None => record.case.as_str(),
    };
    let lowered = to_lower(source);
    let patterns = &config.sweep.name_patterns;
    let ghost all = views(patterns@);
    let ghost p = |p: SweepNamePatternView| pattern_match(p.regex, lowered@) is Some;
    let mut i: usize = 0;
    while i < patterns.len()
        invariant
            computes(*compute),
            reads(*read),
            lowered@ == pattern_source(record@),
            patterns == &config.sweep.name_patterns,
            all == views(patterns@),
            p == (|p: SweepNamePatternView| pattern_match(p.regex, lowered@) is Some),
            i <= patterns@.len(),
            forall|j: int| 0 <= j < i ==> !p(#[trigger] all[j]),
        decreases patterns@.len() - i,
    {
        if patterns[i].regex.is_match(lowered.as_str()) {
            proof {
                assert(p(all[i as int]));
                first_where_at(all, p, i as int);
            }
            return collect_pattern_entry(record, i, lowered.as_str(), config, compute, read);
        }
        i += 1;
    }
    proof {
        first_where_none(all, p);
    }
    Vec::new()
}

/// The entries of a record: those under its tags, or else the one it has by its name.
pub open spec fn record_entries(
    record: BenchmarkRecordView,
    config: &BenchSummaryConfig,
    arithmetic: Arithmetic,
    reading: Reading,
) -> Seq<SweepEntryView> {
    let tagged = tag_entries(record, config, arithmetic, reading);
    if tagged.len() > 0 {
        tagged
    } else {
        name_entries(record, config, arithmetic, reading)
    }
}

/// The entries of all records.
pub open spec fn sweep_entries(
    records: Seq<BenchmarkRecordView>,
    config: &BenchSummaryConfig,
    arithmetic: Arithmetic,
    reading: Reading,
) -> Seq<SweepEntryView> {
    flat(records, |r: BenchmarkRecordView| record_entries(r, config, arithmetic, reading))
}

fn collect_entries<C, R>(
    records: &Vec<BenchmarkRecord>,
    config: &BenchSummaryConfig,
    compute: &C,
    read: &R,
) -> (r: Vec<SweepEntry>) where
    C: Fn(Number, Operation, Number) -> Number,
    R: Fn(String) -> Option<Number>,

    requires
        computes(*compute),
        reads(*read),
    ensures
        views(r@) == sweep_entries(
            views(records@),
            config,
            arithmetic(*compute),
            reading(*read),
        ),
{
    let ghost all = views(records@);
    let ghost f = |r: BenchmarkRecordView|
        record_entries(r, config, arithmetic(*compute), reading(*read));
    let mut out: Vec<SweepEntry> = Vec::new();
    let mut i: usize = 0;
    while i < records.len()
        invariant
            computes(*compute),
            reads(*read),
            all == views(records@),
            f == (|r: BenchmarkRecordView|
                record_entries(r, config, arithmetic(*compute), reading(*read))),
            i <= records@.len(),
            views(out@) == flat(all.take(i as int), f),
        decreases records@.len() - i,
    {
        proof {
            take_step(all, i as int);
        }
        let mut tagged = collect_tag_entries(&records[i], config, compute, read);
        if tagged.len() > 0 {
            out.append(&mut tagged);
        } else {
            let mut named = collect_name_entries(&records[i], config, compute, read);
            out.append(&mut named);
        }
        i += 1;
    }
    proof {
        take_all(all);
    }
    out
}

/// Orders points by the value of the parameter.
pub struct ByParameter;

impl Order<SweepPoint> for ByParameter {
    open spec fn before(a: SweepPointView, b: SweepPointView) -> bool {
        a.parameter_value.rank() < b.parameter_value.rank()
    }

    fn is_before(a: &SweepPoint, b: &SweepPoint) -> (r: bool) {
        a.parameter_value.ranks_below(&b.parameter_value)
    }

    proof fn strict_weak(a: SweepPointView, b: SweepPointView, c: SweepPointView) {
    }
}

/// Orders groups by their titles.
pub struct ByTitle;

impl Order<SweepGroup> for ByTitle {
    open spec fn before(a: SweepGroupView, b: SweepGroupView) -> bool {
        crate::text::text_less(a.title, b.title)
    }

    fn is_before(a: &SweepGroup, b: &SweepGroup) -> (r: bool) {
        less(a.title.as_str(), b.title.as_str())
    }

    proof fn strict_weak(a: SweepGroupView, b: SweepGroupView, c: SweepGroupView) {
        order_of_three(a.title, b.title, c.title);
    }
}

/// Points with what each has changed since the one before it.
pub open spec fn with_changes(points: Seq<SweepPointView>, arithmetic: Arithmetic) -> Seq<
    SweepPointView,
> {
    Seq::new(
        points.len(),
        |i: int|
            if i > 0 && points[i - 1].metric_value.positive() {
                SweepPointView {
                    delta_vs_previous_pct: Some(
                        percent_above(
                            arithmetic,
                            points[i].metric_value,
                            points[i - 1].metric_value,
                        ),
                    ),
                    ..points[i]
                }
            } else {
                points[i]
            },
    )
}

/// The points of the entries with a key.
pub open spec fn points_of(entries: Seq<SweepEntryView>, key: Seq<char>) -> Seq<SweepPointView> {
    mapped(
        keep(entries, |e: SweepEntryView| e.key == key),
        |e: SweepEntryView| e.point,
    )
}

/// The group of the entries with a key.
pub open spec fn group_of(
    entries: Seq<SweepEntryView>,
    key: Seq<char>,
    arithmetic: Arithmetic,
) -> SweepGroupView {
    let first = first_where(entries, |e: SweepEntryView| e.key == key)->Some_0;
    SweepGroupView {
        title: first.title,
        metric: first.metric,
        unit: first.unit,
        points: with_changes(
            sorted::<SweepPoint, ByParameter>(points_of(entries, key)),
            arithmetic,
        ),
    }
}

/// The keys of some entries.
pub open spec fn entry_keys(entries: Seq<SweepEntryView>) -> Set<Seq<char>> {
    mapped(entries, |e: SweepEntryView| e.key).to_set()
}

/// The groups of at least two points, by title.
pub open spec fn groups_of(entries: Seq<SweepEntryView>, arithmetic: Arithmetic) -> Seq<
    SweepGroupView,
> {
    sorted::<SweepGroup, ByTitle>(
        mapped(
            keep(listed(entry_keys(entries)), |key: Seq<char>| points_of(entries, key).len() >= 2),
            |key: Seq<char>| group_of(entries, key, arithmetic),
        ),
    )
}

fn collect_keys(entries: &Vec<SweepEntry>) -> (r: Names)
    ensures
        r@ == entry_keys(views(entries@)),
{
    let ghost all = mapped(views(entries@), |e: SweepEntryView| e.key);
    let mut r = Names::new();
    let mut i: usize = 0;
    assert(all.take(0).to_set() =~= Set::<Seq<char>>::empty());
    while i < entries.len()
        invariant
            all == mapped(views(entries@), |e: SweepEntryView| e.key),
            i <= entries@.len(),
            r@ == all.take(i as int).to_set(),
        decreases entries@.len() - i,
    {
        proof {
            take_step(all, i as int);
            crate::names::set_of_push(all.take(i as int), all[i as int]);
        }
        r.insert(entries[i].key.clone());
        i += 1;
    }
    proof {
        take_all(all);
    }
    r
}

fn collect_points(entries: &Vec<SweepEntry>, key: &str) -> (r: Vec<SweepPoint>)
    ensures
        views(r@) == points_of(views(entries@), key@),
{
    let ghost all = views(entries@);
    let ghost p = |e: SweepEntryView| e.key == key@;
    let ghost f = |e: SweepEntryView| e.point;
    let mut out: Vec<SweepPoint> = Vec::new();
    let mut i: usize = 0;
    assert(views(out@) =~= mapped(keep(all.take(0), p), f));
    while i < entries.len()
        invariant
            all == views(entries@),
            p == (|e: SweepEntryView| e.key == key@),
            f == (|e: SweepEntryView| e.point),
            i <= entries@.len(),
            views(out@) == mapped(keep(all.take(i as int), p), f),
        decreases entries@.len() - i,
    {
        proof {
            take_step(all, i as int);
        }
        if same(entries[i].key.as_str(), key) {
            out.push(entries[i].point.copied());
        }
        i += 1;
        assert(views(out@) =~= mapped(keep(all.take(i as int), p), f));
    }
    proof {
        take_all(all);
    }
    out
}

fn find_entry<'a>(entries: &'a Vec<SweepEntry>, key: &str) -> (r: Option<&'a SweepEntry>)
    ensures
        option_view(r) == first_where(views(entries@), |e: SweepEntryView| e.key == key@),
{
    let ghost all = views(entries@);
    let ghost p = |e: SweepEntryView| e.key == key@;
    let mut i: usize = 0;
    while i < entries.len()
        invariant
            all == views(entries@),
            p == (|e: SweepEntryView| e.key == key@),
            i <= entries@.len(),
            forall|j: int| 0 <= j < i ==> !p(#[trigger] all[j]),
        decreases entries@.len() - i,
    {
        if same(entries[i].key.as_str(), key) {
            proof {
                assert(p(all[i as int]));
                first_where_at(all, p, i as int);
            }
            return Some(&entries[i]);
        }
        i += 1;
    }
    proof {
        first_where_none(all, p);
    }
    None
}

fn note_changes<C: Fn(Number, Operation, Number) -> Number>(
    points: Vec<SweepPoint>,
    compute: &C,
) -> (r: Vec<SweepPoint>)
    requires
        computes(*compute),
    ensures
        views(r@) == with_changes(views(points@), arithmetic(*compute)),
{
    let ghost all = views(points@);
    let ghost done = with_changes(all, arithmetic(*compute));
    let mut out: Vec<SweepPoint> = Vec::new();
    let mut i: usize = 0;
    while i < points.len()
        invariant
            computes(*compute),
            all == views(points@),
            done == with_changes(all, arithmetic(*compute)),
            i <= points@.len(),
            views(out@) == done.take(i as int),
        decreases points@.len() - i,
    {
        let mut point = points[i].copied();
        if i > 0 && points[i - 1].metric_value.is_positive() {
            point.delta_vs_previous_pct = Some(
                change_percent(compute, points[i].metric_value, points[i - 1].metric_value),
            );
        }
        assert(all[i as int] == points@[i as int]@);
        assert(point@ =~= done[i as int]);
        out.push(point);
        i += 1;
        assert(views(out@) =~= done.take(i as int));
    }
    proof {
        take_all(done);
    }
    out
}

fn build_groups<C: Fn(Number, Operation, Number) -> Number>(
    entries: &Vec<SweepEntry>,
    compute: &C,
) -> (r: Vec<SweepGroup>)
    requires
        computes(*compute),
    ensures
        views(r@) == groups_of(views(entries@), arithmetic(*compute)),
{
    let names = collect_keys(entries);
    let keys = names.as_vec();
    let ghost all = views(keys@);
    let ghost items = views(entries@);
    let ghost p = |key: Seq<char>| points_of(items, key).len() >= 2;
    let ghost f = |key: Seq<char>| group_of(items, key, arithmetic(*compute));
    let mut out: Vec<SweepGroup> = Vec::new();
    let mut i: usize = 0;
    assert(views(out@) =~= mapped(keep(all.take(0), p), f));
    while i < keys.len()
        invariant
            computes(*compute),
            all == views(keys@),
            items == views(entries@),
            p == (|key: Seq<char>| points_of(items, key).len() >= 2),
            f == (|key: Seq<char>| group_of(items, key, arithmetic(*compute))),
            i <= keys@.len(),
            views(out@) == mapped(keep(all.take(i as int), p), f),
        decreases keys@.len() - i,
    {
        proof {
            take_step(all, i as int);
        }
        let key = keys[i].as_str();
        let points = collect_points(entries, key);
        assert(views(points@).len() == points@.len());
        if points.len() >= 2 {
            match find_entry(entries, key) {
                Some(first) => {
                    let ordered = sort::<SweepPoint, ByParameter>(points);
                    out.push(
                        SweepGroup {
                            title: first.title.clone(),
                            metric: first.metric.clone(),
                            unit: first.unit.clone(),
                            points: note_changes(ordered, compute),
                        },
                    );
                },
                None => {
                    proof {
                        points_need_an_entry(items, key@);
                    }
                },
            }
        }
        i += 1;
        assert(views(out@) =~= mapped(keep(all.take(i as int), p), f));
    }
    proof {
        take_all(all);
    }
    sort::<SweepGroup, ByTitle>(out)
}

/// Where no entry has a key there are no points with it.
proof fn points_need_an_entry(entries: Seq<SweepEntryView>, key: Seq<char>)
    requires
        first_where(entries, |e: SweepEntryView| e.key == key) is None,
    ensures
        points_of(entries, key).len() == 0,
{
    let p = |e: SweepEntryView| e.key == key;
    crate::seqs::kept(entries, p);
    if keep(entries, p).len() > 0 {
        let e = keep(entries, p)[0];
        let k = entries.index_of(e);
        first_match_exists(entries, p, k);
    }
}

proof fn first_match_exists<A>(s: Seq<A>, p: spec_fn(A) -> bool, k: int)
    requires
        0 <= k < s.len(),
        p(s[k]),
    ensures
        first_where(s, p) is Some,
    decreases s.len(),
{
    if !p(s[0]) {
        assert(s.skip(1)[k - 1] == s[k]);
        first_match_exists(s.skip(1), p, k - 1);
    }
}

/// The parameters that benchmarks were run with, and what was measured for their values.
pub fn detect_sweep_groups<C, R>(
    records: &Vec<BenchmarkRecord>,
    config: &BenchSummaryConfig,
    compute: &C,
    read: &R,
) -> (r: Vec<SweepGroup>) where
    C: Fn(Number, Operation, Number) -> Number,
    R: Fn(String) -> Option<Number>,

    requires
        computes(*compute),
        reads(*read),
    ensures
        views(r@) == groups_of(
            sweep_entries(views(records@), config, arithmetic(*compute), reading(*read)),
            arithmetic(*compute),
        ),
{
    let entries = collect_entries(records, config, compute, read);
    build_groups(&entries, compute)
}

/// A group has at least two points, in the order of the parameter's values.
pub proof fn groups_are_sweeps(entries: Seq<SweepEntryView>, key: Seq<char>, arithmetic: Arithmetic)
    requires
        points_of(entries, key).len() >= 2,
    ensures
        ({
            let points = group_of(entries, key, arithmetic).points;
            &&& points.len() == points_of(entries, key).len()
            &&& points.len() >= 2
            &&& forall|i: int, j: int|
                0 <= i < j < points.len() ==> #[trigger] points[i].parameter_value.rank()
                    <= #[trigger] points[j].parameter_value.rank()
        }),
{
    let all = points_of(entries, key);
    sorted_is_permutation::<SweepPoint, ByParameter>(all);
    sorted_in_order::<SweepPoint, ByParameter>(all);
    let ordered = sorted::<SweepPoint, ByParameter>(all);
    let points = group_of(entries, key, arithmetic).points;
    assert forall|i: int, j: int| 0 <= i < j < points.len() implies #[trigger] points[i].parameter_value.rank()
        <= #[trigger] points[j].parameter_value.rank() by {
        assert(!ByParameter::before(ordered[j], ordered[i]));
    }
}

} // verus!
