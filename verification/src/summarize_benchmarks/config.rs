//! What a summary of benchmarks goes by.

use vstd::prelude::*;

use super::model::{BenchmarkRecord, BenchmarkRecordView};
use super::numbers::Number;
use crate::copies::option_view;
use crate::names::{entry, NameMap, Names};
use crate::paths::{join_path, path_join};
use crate::patterns::{compile_all, first_fault, pattern_match, Pattern};
use crate::seqs::{any, views};

verus! {

broadcast use {vstd::std_specs::vec::group_vec_axioms, crate::seqs::group_views};

/// What a summary of benchmarks goes by.
pub struct BenchSummaryConfig {
    pub product_name: String,
    pub report_title: String,
    pub root: String,
    pub baseline_file: String,
    pub manifest_file: String,
    pub markdown_report_file: String,
    pub adapters: AdapterConfigs,
    pub thresholds: SummaryThresholds,
    pub stability_thresholds: StabilityThresholds,
    pub authoritative_statuses: Names,
    pub authoritative_stabilities: Names,
    pub ignored_exact_ids: Names,
    pub ignored_patterns: Vec<Pattern>,
    pub sweep: SweepConfig,
    pub suite_display_overrides: NameMap<String>,
}

#[verifier::ext_equal]
pub struct BenchSummaryConfigView {
    pub product_name: Seq<char>,
    pub report_title: Seq<char>,
    pub root: Seq<char>,
    pub baseline_file: Seq<char>,
    pub manifest_file: Seq<char>,
    pub markdown_report_file: Seq<char>,
    pub adapters: AdapterConfigsView,
    pub thresholds: SummaryThresholds,
    pub stability_thresholds: StabilityThresholds,
    pub authoritative_statuses: Set<Seq<char>>,
    pub authoritative_stabilities: Set<Seq<char>>,
    pub ignored_exact_ids: Set<Seq<char>>,
    pub ignored_patterns: Seq<Seq<char>>,
    pub sweep: SweepConfigView,
    pub suite_display_overrides: Map<Seq<char>, Seq<char>>,
}

impl View for BenchSummaryConfig {
    type V = BenchSummaryConfigView;

    open spec fn view(&self) -> BenchSummaryConfigView {
        BenchSummaryConfigView {
            product_name: self.product_name@,
            report_title: self.report_title@,
            root: self.root@,
            baseline_file: self.baseline_file@,
            manifest_file: self.manifest_file@,
            markdown_report_file: self.markdown_report_file@,
            adapters: self.adapters@,
            thresholds: self.thresholds,
            stability_thresholds: self.stability_thresholds,
            authoritative_statuses: self.authoritative_statuses@,
            authoritative_stabilities: self.authoritative_stabilities@,
            ignored_exact_ids: self.ignored_exact_ids@,
            ignored_patterns: views(self.ignored_patterns@),
            sweep: self.sweep@,
            suite_display_overrides: self.suite_display_overrides@,
        }
    }
}

/// Where benchmark results are taken from.
pub struct AdapterConfigs {
    pub criterion: Option<CriterionAdapterConfig>,
    pub stress: Option<StressAdapterConfig>,
}

#[verifier::ext_equal]
pub struct AdapterConfigsView {
    pub criterion: Option<CriterionAdapterConfigView>,
    pub stress: Option<StressAdapterConfigView>,
}

impl View for AdapterConfigs {
    type V = AdapterConfigsView;

    open spec fn view(&self) -> AdapterConfigsView {
        AdapterConfigsView {
            criterion: option_view(self.criterion),
            stress: option_view(self.stress),
        }
    }
}

pub struct CriterionAdapterConfig {
    pub input_root: String,
    pub csv_output: Option<String>,
    pub min_reasonable_mean_ns: Number,
    pub max_reasonable_mean_ns: Number,
}

#[verifier::ext_equal]
pub struct CriterionAdapterConfigView {
    pub input_root: Seq<char>,
    pub csv_output: Option<Seq<char>>,
    pub min_reasonable_mean_ns: Number,
    pub max_reasonable_mean_ns: Number,
}

impl View for CriterionAdapterConfig {
    type V = CriterionAdapterConfigView;

    open spec fn view(&self) -> CriterionAdapterConfigView {
        CriterionAdapterConfigView {
            input_root: self.input_root@,
            csv_output: option_view(self.csv_output),
            min_reasonable_mean_ns: self.min_reasonable_mean_ns,
            max_reasonable_mean_ns: self.max_reasonable_mean_ns,
        }
    }
}

pub struct StressAdapterConfig {
    pub input_root: String,
    pub csv_output: Option<String>,
    pub min_reasonable_duration_ns: Number,
    pub max_reasonable_throughput_ops_per_s: Number,
    pub authoritative_min_samples: usize,
}

#[verifier::ext_equal]
pub struct StressAdapterConfigView {
    pub input_root: Seq<char>,
    pub csv_output: Option<Seq<char>>,
    pub min_reasonable_duration_ns: Number,
    pub max_reasonable_throughput_ops_per_s: Number,
    pub authoritative_min_samples: usize,
}

impl View for StressAdapterConfig {
    type V = StressAdapterConfigView;

    open spec fn view(&self) -> StressAdapterConfigView {
        StressAdapterConfigView {
            input_root: self.input_root@,
            csv_output: option_view(self.csv_output),
            min_reasonable_duration_ns: self.min_reasonable_duration_ns,
            max_reasonable_throughput_ops_per_s: self.max_reasonable_throughput_ops_per_s,
            authoritative_min_samples: self.authoritative_min_samples,
        }
    }
}

/// From how many per cent on a change is told.
#[derive(Debug, Clone, Copy, PartialEq, Eq, Structural)]
pub struct SummaryThresholds {
    pub warning_regression_pct: Number,
    pub critical_regression_pct: Number,
}

/// Up to which relative standard deviation a measurement is how stable.
#[derive(Debug, Clone, Copy, PartialEq, Eq, Structural)]
pub struct StabilityThresholds {
    pub stable: Number,
    pub acceptable: Number,
    pub noisy: Number,
}

/// How parameters of benchmarks are told from their tags and names.
pub struct SweepConfig {
    pub tag_keys: Names,
    pub tag_key_suffixes: Vec<String>,
    pub context_tag_keys: Vec<String>,
    pub name_patterns: Vec<SweepNamePatternConfig>,
}

#[verifier::ext_equal]
pub struct SweepConfigView {
    pub tag_keys: Set<Seq<char>>,
    pub tag_key_suffixes: Seq<Seq<char>>,
    pub context_tag_keys: Seq<Seq<char>>,
    pub name_patterns: Seq<SweepNamePatternView>,
}

impl View for SweepConfig {
    type V = SweepConfigView;

    open spec fn view(&self) -> SweepConfigView {
        SweepConfigView {
            tag_keys: self.tag_keys@,
            tag_key_suffixes: views(self.tag_key_suffixes@),
            context_tag_keys: views(self.context_tag_keys@),
            name_patterns: views(self.name_patterns@),
        }
    }
}

/// A parameter and the pattern of the names that hold it.
pub struct SweepNamePatternConfig {
    pub parameter: String,
    pub regex: Pattern,
    pub value_capture: String,
    pub prefix_capture: Option<String>,
}

#[verifier::ext_equal]
pub struct SweepNamePatternView {
    pub parameter: Seq<char>,
    pub regex: Seq<char>,
    pub value_capture: Seq<char>,
    pub prefix_capture: Option<Seq<char>>,
}

impl View for SweepNamePatternConfig {
    type V = SweepNamePatternView;

    open spec fn view(&self) -> SweepNamePatternView {
        SweepNamePatternView {
            parameter: self.parameter@,
            regex: self.regex@,
            value_capture: self.value_capture@,
            prefix_capture: option_view(self.prefix_capture),
        }
    }
}

/// The ids that are never summarized.
pub open spec fn default_ignored() -> Set<Seq<char>> {
    set![
        "hotpath_actor_messaging/actorref_clone_overhead"@,
        "hotpath_context/timer_id_new"@,
        "hotpath_envelope/messageid_new"@,
        "hotpath_envelope/metadata_extraction"@,
        "hotpath_envelope/is_expired_not_expired"@,
        "hotpath_envelope/is_expired_expired"@,
        "hotpath_envelope/is_expired_no_deadline"@,
        "hotpath_routing/full_address_from_string"@,
        "hotpath_routing/route_address_clone"@,
        "hotpath_routing/route_address_family_access"@,
        "hotpath_routing/route_address_route_access"@,
        "hotpath_routing/route_as_str"@,
        "hotpath_routing/route_clone_long"@,
        "hotpath_routing/route_clone_short"@,
        "hotpath_routing/route_equality_different"@,
        "hotpath_routing/route_equality_same"@,
        "hotpath_routing/route_family_from_u32"@,
        "hotpath_routing/route_family_new_u64"@,
    ]
}

fn default_ignored_exact_ids() -> (r: Names)
    ensures
        r@ == default_ignored(),
{
    let mut r = Names::new();
    r.insert("hotpath_actor_messaging/actorref_clone_overhead".to_owned());
    r.insert("hotpath_context/timer_id_new".to_owned());
    r.insert("hotpath_envelope/messageid_new".to_owned());
    r.insert("hotpath_envelope/metadata_extraction".to_owned());
    r.insert("hotpath_envelope/is_expired_not_expired".to_owned());
    r.insert("hotpath_envelope/is_expired_expired".to_owned());
    r.insert("hotpath_envelope/is_expired_no_deadline".to_owned());
    r.insert("hotpath_routing/full_address_from_string".to_owned());
    r.insert("hotpath_routing/route_address_clone".to_owned());
    r.insert("hotpath_routing/route_address_family_access".to_owned());
    r.insert("hotpath_routing/route_address_route_access".to_owned());
    r.insert("hotpath_routing/route_as_str".to_owned());
    r.insert("hotpath_routing/route_clone_long".to_owned());
    r.insert("hotpath_routing/route_clone_short".to_owned());
    r.insert("hotpath_routing/route_equality_different".to_owned());
    r.insert("hotpath_routing/route_equality_same".to_owned());
    r.insert("hotpath_routing/route_family_from_u32".to_owned());
    r.insert("hotpath_routing/route_family_new_u64".to_owned());
    r
}

/// The tags that hold parameters.
pub open spec fn default_tag_keys() -> Set<Seq<char>> {
    set![
        "client_count"@,
        "subscriber_count"@,
        "publisher_count"@,
        "worker_count"@,
        "pending_count"@,
        "route_count"@,
        "queue_count"@,
        "area_count"@,
        "family_count"@,
        "payload_size"@,
        "message_size"@,
        "fanout_size"@,
        "batch_size"@,
        "list_size"@,
        "depth"@,
    ]
}

fn tag_keys() -> (r: Names)
    ensures
        r@ == default_tag_keys(),
{
    let mut r = Names::new();
    r.insert("client_count".to_owned());
    r.insert("subscriber_count".to_owned());
    r.insert("publisher_count".to_owned());
    r.insert("worker_count".to_owned());
    r.insert("pending_count".to_owned());
    r.insert("route_count".to_owned());
    r.insert("queue_count".to_owned());
    r.insert("area_count".to_owned());
    r.insert("family_count".to_owned());
    r.insert("payload_size".to_owned());
    r.insert("message_size".to_owned());
    r.insert("fanout_size".to_owned());
    r.insert("batch_size".to_owned());
    r.insert("list_size".to_owned());
    r.insert("depth".to_owned());
    r
}

/// The parameters that names hold.
pub open spec fn default_parameters() -> Seq<Seq<char>> {
    seq![
        "concurrency"@,
        "subscriber_count"@,
        "payload_size"@,
        "route_depth"@,
        "fanout_size"@,
        "batch_size"@,
        "list_size"@,
    ]
}

/// The patterns of the names that hold them.
pub open spec fn default_name_patterns() -> Seq<Seq<char>> {
    seq![
        "(?P<prefix>scaling|concurrency|clients?)_(?P<value>\\d+[a-zA-Z]*)"@,
        "(?P<prefix>subscribers?|subscriber_count)_(?P<value>\\d+[a-zA-Z]*)"@,
        "(?P<prefix>payload|message|msg)_(?P<value>\\d+[a-zA-Z]*)"@,
        "(?P<prefix>depth)_(?P<value>\\d+[a-zA-Z]*)"@,
        "(?P<prefix>fanout)_(?P<value>\\d+[a-zA-Z]*)"@,
        "(?P<prefix>batch|batch_size)_(?P<value>\\d+[a-zA-Z]*)"@,
        "(?P<prefix>list)_(?P<value>\\d+[a-zA-Z]*)"@,
    ]
}

fn parameters() -> (r: Vec<String>)
    ensures
        views(r@) == default_parameters(),
{
    let mut r: Vec<String> = Vec::new();
    r.push("concurrency".to_owned());
    r.push("subscriber_count".to_owned());
    r.push("payload_size".to_owned());
    r.push("route_depth".to_owned());
    r.push("fanout_size".to_owned());
    r.push("batch_size".to_owned());
    r.push("list_size".to_owned());
    r
}

fn name_patterns() -> (r: Vec<String>)
    ensures
        views(r@) == default_name_patterns(),
{
    let mut r: Vec<String> = Vec::new();
    r.push("(?P<prefix>scaling|concurrency|clients?)_(?P<value>\\d+[a-zA-Z]*)".to_owned());
    r.push("(?P<prefix>subscribers?|subscriber_count)_(?P<value>\\d+[a-zA-Z]*)".to_owned());
    r.push("(?P<prefix>payload|message|msg)_(?P<value>\\d+[a-zA-Z]*)".to_owned());
    r.push("(?P<prefix>depth)_(?P<value>\\d+[a-zA-Z]*)".to_owned());
    r.push("(?P<prefix>fanout)_(?P<value>\\d+[a-zA-Z]*)".to_owned());
    r.push("(?P<prefix>batch|batch_size)_(?P<value>\\d+[a-zA-Z]*)".to_owned());
    r.push("(?P<prefix>list)_(?P<value>\\d+[a-zA-Z]*)".to_owned());
    r
}

/// The pattern of a name that holds a parameter.
pub open spec fn sweep_pattern_of(parameter: Seq<char>, pattern: Seq<char>) -> SweepNamePatternView {
    SweepNamePatternView {
        parameter,
        regex: pattern,
        value_capture: "value"@,
        prefix_capture: Some("prefix"@),
    }
}

/// How parameters are told where nothing else is configured.
pub open spec fn default_sweep() -> SweepConfigView {
    SweepConfigView {
        tag_keys: default_tag_keys(),
        tag_key_suffixes: seq!["_count"@, "_size"@, "_depth"@],
        context_tag_keys: seq![
            "measurement_scope"@,
            "match_kind"@,
            "ready_state"@,
            "operation"@,
            "layer"@,
        ],
        name_patterns: Seq::new(
            7,
            |i: int| sweep_pattern_of(default_parameters()[i], default_name_patterns()[i]),
        ),
    }
}

fn default_sweep_config() -> (r: Result<SweepConfig, String>)
    ensures
        match r {
            Ok(sweep) => sweep@ == default_sweep() && first_fault(default_name_patterns()) is None,
            Err(message) => first_fault(default_name_patterns()) == Some(message@),
        },
{
    let names = parameters();
    let compiled = match compile_all(&name_patterns()) {
        Ok(compiled) => compiled,
        Err(message) => {
            return Err(message);
        },
    };
    let mut name_patterns: Vec<SweepNamePatternConfig> = Vec::new();
    let ghost regexes = views(compiled@);
    assert(regexes == default_name_patterns());
    for regex in it: compiled
        invariant
            views(names@) == default_parameters(),
            views(it.seq()) == regexes,
            regexes == default_name_patterns(),
            views(name_patterns@) == Seq::new(
                it.index() as nat,
                |i: int| sweep_pattern_of(default_parameters()[i], regexes[i]),
            ),
    {
        let ghost i = it.index();
        assert(views(it.seq())[i as int] == regex@);
        assert(views(name_patterns@).len() == i);
        assert(views(names@).len() == 7 && views(it.seq()).len() == 7);
        name_patterns.push(
            SweepNamePatternConfig {
                parameter: names[name_patterns.len()].clone(),
                regex,
                value_capture: "value".to_owned(),
                prefix_capture: Some("prefix".to_owned()),
            },
        );
        assert(views(name_patterns@) =~= Seq::new(
            (i + 1) as nat,
            |i: int| sweep_pattern_of(default_parameters()[i], regexes[i]),
        ));
    }
    let mut tag_key_suffixes: Vec<String> = Vec::new();
    tag_key_suffixes.push("_count".to_owned());
    tag_key_suffixes.push("_size".to_owned());
    tag_key_suffixes.push("_depth".to_owned());
    let mut context_tag_keys: Vec<String> = Vec::new();
    context_tag_keys.push("measurement_scope".to_owned());
    context_tag_keys.push("match_kind".to_owned());
    context_tag_keys.push("ready_state".to_owned());
    context_tag_keys.push("operation".to_owned());
    context_tag_keys.push("layer".to_owned());
    let r = SweepConfig { tag_keys: tag_keys(), tag_key_suffixes, context_tag_keys, name_patterns };
    assert(r@.tag_key_suffixes =~= default_sweep().tag_key_suffixes);
    assert(r@.context_tag_keys =~= default_sweep().context_tag_keys);
    assert(r@.name_patterns =~= default_sweep().name_patterns);
    Ok(r)
}

/// Where results are taken from below a root.
pub open spec fn default_adapters_of(root: Seq<char>) -> AdapterConfigsView {
    let target = path_join(root, "target"@);
    let criterion = path_join(target, "criterion"@);
    let stress = path_join(target, "stress"@);
    AdapterConfigsView {
        criterion: Some(
            CriterionAdapterConfigView {
                input_root: criterion,
                csv_output: Some(path_join(criterion, "summarize_benchmarks.csv"@)),
                min_reasonable_mean_ns: Number { bits: ONE },
                max_reasonable_mean_ns: Number { bits: TRILLION },
            },
        ),
        stress: Some(
            StressAdapterConfigView {
                input_root: stress,
                csv_output: Some(path_join(stress, "stress_summary.csv"@)),
                min_reasonable_duration_ns: Number { bits: THREE_BILLION },
                max_reasonable_throughput_ops_per_s: Number { bits: BILLION },
                authoritative_min_samples: 5,
            },
        ),
    }
}

/// The bits of 1.
pub const ONE: u64 = 0x3ff0_0000_0000_0000;

/// The bits of 10.
pub const TEN: u64 = 0x4024_0000_0000_0000;

/// The bits of 25.
pub const TWENTY_FIVE: u64 = 0x4039_0000_0000_0000;

/// The bits of 1,000,000,000.
pub const BILLION: u64 = 0x41cd_cd65_0000_0000;

/// The bits of 3,000,000,000.
pub const THREE_BILLION: u64 = 0x41e6_5a0b_c000_0000;

/// The bits of 1,000,000,000,000.
pub const TRILLION: u64 = 0x426d_1a94_a200_0000;

/// The bits of one twentieth.
pub const TWENTIETH: u64 = 0x3fa9_9999_9999_999a;

/// The bits of one tenth.
pub const TENTH: u64 = 0x3fb9_9999_9999_999a;

/// The bits of one fifth.
pub const FIFTH: u64 = 0x3fc9_9999_9999_999a;

fn default_adapters(root: &str) -> (r: AdapterConfigs)
    ensures
        r@ == default_adapters_of(root@),
{
    let target = join_path(root, "target");
    let criterion = join_path(target.as_str(), "criterion");
    let stress = join_path(target.as_str(), "stress");
    AdapterConfigs {
        criterion: Some(
            CriterionAdapterConfig {
                csv_output: Some(join_path(criterion.as_str(), "summarize_benchmarks.csv")),
                input_root: criterion,
                min_reasonable_mean_ns: Number { bits: ONE },
                max_reasonable_mean_ns: Number { bits: TRILLION },
            },
        ),
        stress: Some(
            StressAdapterConfig {
                csv_output: Some(join_path(stress.as_str(), "stress_summary.csv")),
                input_root: stress,
                min_reasonable_duration_ns: Number { bits: THREE_BILLION },
                max_reasonable_throughput_ops_per_s: Number { bits: BILLION },
                authoritative_min_samples: 5,
            },
        ),
    }
}

/// What a summary goes by where nothing else is configured.
pub open spec fn default_config(
    root: Seq<char>,
    product_name: Seq<char>,
    report_title: Seq<char>,
) -> BenchSummaryConfigView {
    BenchSummaryConfigView {
        product_name,
        report_title,
        root,
        baseline_file: path_join(path_join(root, "config"@), "bench_baseline.json"@),
        manifest_file: path_join(path_join(root, "target"@), "bench_results.json"@),
        markdown_report_file: path_join(path_join(root, "target"@), "bench_summary.md"@),
        adapters: default_adapters_of(root),
        thresholds: SummaryThresholds {
            warning_regression_pct: Number { bits: TEN },
            critical_regression_pct: Number { bits: TWENTY_FIVE },
        },
        stability_thresholds: StabilityThresholds {
            stable: Number { bits: TWENTIETH },
            acceptable: Number { bits: TENTH },
            noisy: Number { bits: FIFTH },
        },
        authoritative_statuses: set!["authoritative"@, "acceptable"@],
        authoritative_stabilities: set!["stable"@, "acceptable"@],
        ignored_exact_ids: default_ignored(),
        ignored_patterns: seq!["schedule_system_scan_and_fire"@],
        sweep: default_sweep(),
        suite_display_overrides: Map::empty(),
    }
}

/// Whether a pattern matches a text.
pub open spec fn hits(pattern: Seq<char>, text: Seq<char>) -> bool {
    pattern_match(pattern, text) is Some
}

/// Whether a pattern matches a key of a map, its value, or both as one text.
pub open spec fn hits_map(pattern: Seq<char>, map: Map<Seq<char>, Seq<char>>) -> bool {
    exists|key: Seq<char>| #[trigger]
        map.contains_key(key) && (hits(pattern, key) || hits(pattern, map[key]) || hits(
            pattern,
            key + "="@ + map[key],
        ))
}

/// Whether a pattern matches something of a record.
pub open spec fn hits_record(pattern: Seq<char>, record: BenchmarkRecordView) -> bool {
    ||| hits(pattern, record.id)
    ||| hits(pattern, record.adapter)
    ||| hits(pattern, record.suite)
    ||| hits(pattern, record.case)
    ||| hits(pattern, record.metric)
    ||| hits(pattern, record.source_file)
    ||| (record.scenario matches Some(scenario) && hits(pattern, scenario))
    ||| hits_map(pattern, record.tags)
    ||| hits_map(pattern, record.metadata)
}

fn matches_map(pattern: &Pattern, map: &NameMap<String>) -> (r: bool)
    ensures
        r == hits_map(pattern@, map@),
{
    let keys = map.keys();
    let ghost all = views(keys@);
    let mut i: usize = 0;
    while i < keys.len()
        invariant
            all == views(keys@),
            all.to_set() == map@.dom(),
            i <= keys@.len(),
            forall|j: int|
                0 <= j < i ==> !hits(pattern@, #[trigger] all[j]) && !hits(pattern@, map@[all[j]])
                    && !hits(pattern@, all[j] + "="@ + map@[all[j]]),
        decreases keys@.len() - i,
    {
        let key = keys[i].as_str();
        assert(all.contains(all[i as int]));
        assert(map@.contains_key(all[i as int]));
        match map.get(key) {
            Some(value) => {
                let mut both = key.to_owned();
                both.append("=");
                both.append(value.as_str());
                if pattern.is_match(key) || pattern.is_match(value.as_str()) || pattern.is_match(
                    both.as_str(),
                ) {
                    return true;
                }
            },
            None => {},
        }
        i += 1;
    }
    proof {
        assert forall|key: Seq<char>| #[trigger] map@.contains_key(key) implies !(hits(
            pattern@,
            key,
        ) || hits(pattern@, map@[key]) || hits(pattern@, key + "="@ + map@[key])) by {
            assert(all.to_set().contains(key));
            let k = all.index_of(key);
            assert(all[k] == key);
        }
    }
    false
}

fn matches_ignore_pattern(record: &BenchmarkRecord, pattern: &Pattern) -> (r: bool)
    ensures
        r == hits_record(pattern@, record@),
{
    if pattern.is_match(record.id.as_str()) || pattern.is_match(record.adapter.as_str())
        || pattern.is_match(record.suite.as_str()) || pattern.is_match(record.case.as_str())
        || pattern.is_match(record.metric.as_str()) || pattern.is_match(
        record.source_file.as_str(),
    ) {
        return true;
    }
    let in_scenario = match &record.scenario {
        Some(scenario) => pattern.is_match(scenario.as_str()),
        None => false,
    };
    in_scenario || matches_map(pattern, &record.tags) || matches_map(pattern, &record.metadata)
}

impl BenchSummaryConfigView {
    /// Whether a record is left out of summaries.
    pub open spec fn ignores(self, record: BenchmarkRecordView) -> bool {
        self.ignored_exact_ids.contains(record.id) || any(
            self.ignored_patterns,
            |pattern: Seq<char>| hits_record(pattern, record),
        )
    }

    /// The name under which a suite is shown.
    pub open spec fn suite_label(self, suite: Seq<char>) -> Seq<char> {
        match entry(self.suite_display_overrides, suite) {
            Some(label) => label,
            None => suite,
        }
    }

    pub open spec fn criterion_csv(self) -> Option<Seq<char>> {
        match self.adapters.criterion {
            Some(criterion) => criterion.csv_output,
            None => None,
        }
    }

    pub open spec fn stress_csv(self) -> Option<Seq<char>> {
        match self.adapters.stress {
            Some(stress) => stress.csv_output,
            None => None,
        }
    }
}

impl BenchSummaryConfig {
    /// What a summary of a repository goes by.
    pub fn for_root(root: &str, product_name: &str, report_title: &str) -> (r: Result<
        BenchSummaryConfig,
        String,
    >)
        ensures
            ({
                let patterns = seq!["schedule_system_scan_and_fire"@];
                match r {
                    Ok(config) => config@ == default_config(root@, product_name@, report_title@)
                        && first_fault(patterns) is None && first_fault(
                        default_name_patterns(),
                    ) is None,
                    Err(message) => Some(message@) == (match first_fault(patterns) {
                        Some(fault) => Some(fault),
                        None => first_fault(default_name_patterns()),
                    }),
                }
            }),
    {
        let mut ignored: Vec<String> = Vec::new();
        ignored.push("schedule_system_scan_and_fire".to_owned());
        assert(views(ignored@) =~= seq!["schedule_system_scan_and_fire"@]);
        let ignored_patterns = match compile_all(&ignored) {
            Ok(compiled) => compiled,
            Err(message) => {
                return Err(message);
            },
        };
        let sweep = match default_sweep_config() {
            Ok(sweep) => sweep,
            Err(message) => {
                return Err(message);
            },
        };
        let config = join_path(root, "config");
        let target = join_path(root, "target");
        let mut authoritative_statuses = Names::new();
        authoritative_statuses.insert("authoritative".to_owned());
        authoritative_statuses.insert("acceptable".to_owned());
        let mut authoritative_stabilities = Names::new();
        authoritative_stabilities.insert("stable".to_owned());
        authoritative_stabilities.insert("acceptable".to_owned());
        let r = BenchSummaryConfig {
            product_name: product_name.to_owned(),
            report_title: report_title.to_owned(),
            root: root.to_owned(),
            baseline_file: join_path(config.as_str(), "bench_baseline.json"),
            manifest_file: join_path(target.as_str(), "bench_results.json"),
            markdown_report_file: join_path(target.as_str(), "bench_summary.md"),
            adapters: default_adapters(root),
            thresholds: SummaryThresholds {
                warning_regression_pct: Number { bits: TEN },
                critical_regression_pct: Number { bits: TWENTY_FIVE },
            },
            stability_thresholds: StabilityThresholds {
                stable: Number { bits: TWENTIETH },
                acceptable: Number { bits: TENTH },
                noisy: Number { bits: FIFTH },
            },
            authoritative_statuses,
            authoritative_stabilities,
            ignored_exact_ids: default_ignored_exact_ids(),
            ignored_patterns,
            sweep,
            suite_display_overrides: NameMap::new(),
        };
        assert(r@ =~= default_config(root@, product_name@, report_title@));
        Ok(r)
    }

    pub fn criterion_csv_output(&self) -> (r: Option<&String>)
        ensures
            option_view(r) == self@.criterion_csv(),
    {
        match &self.adapters.criterion {
            Some(criterion) => criterion.csv_output.as_ref(),
            None => None,
        }
    }

    pub fn stress_csv_output(&self) -> (r: Option<&String>)
        ensures
            option_view(r) == self@.stress_csv(),
    {
        match &self.adapters.stress {
            Some(stress) => stress.csv_output.as_ref(),
            None => None,
        }
    }

    pub fn display_suite_label(&self, suite: &str) -> (r: String)
        ensures
            r@ == self@.suite_label(suite@),
    {
        match self.suite_display_overrides.get(suite) {
            Some(label) => label.clone(),
            None => suite.to_owned(),
        }
    }

    pub fn should_ignore_record(&self, record: &BenchmarkRecord) -> (r: bool)
        ensures
            r == self@.ignores(record@),
    {
        if self.ignored_exact_ids.contains(record.id.as_str()) {
            return true;
        }
        let ghost p = |pattern: Seq<char>| hits_record(pattern, record@);
        let ghost all = views(self.ignored_patterns@);
        let mut i: usize = 0;
        while i < self.ignored_patterns.len()
            invariant
                p == (|pattern: Seq<char>| hits_record(pattern, record@)),
                all == views(self.ignored_patterns@),
                i <= self.ignored_patterns@.len(),
                forall|j: int| 0 <= j < i ==> !p(#[trigger] all[j]),
            decreases self.ignored_patterns@.len() - i,
        {
            if matches_ignore_pattern(record, &self.ignored_patterns[i]) {
                assert(p(all[i as int]));
                return true;
            }
            i += 1;
        }
        false
    }
}

} // verus!
