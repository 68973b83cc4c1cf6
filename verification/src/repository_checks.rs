//! Checks of a repository's documents, benchmarks, modules and test suites.

pub mod benchmarks;
pub mod docs;
pub mod laws;
pub mod modules;
pub mod watchdog;

use vstd::prelude::*;

use crate::seqs::views;

verus! {

broadcast use {vstd::std_specs::vec::group_vec_axioms, crate::seqs::group_views};

/// What the check of the documents is given.
#[derive(Debug, Clone, PartialEq, Eq)]
pub struct ValidateDocsArgs {
    pub root: String,
    pub config: Option<String>,
}

/// What the check of the benchmarks is given.
#[derive(Debug, Clone, PartialEq, Eq)]
pub struct ValidateBenchmarksArgs {
    pub root: String,
    pub config: Option<String>,
}

/// What the check of the modules is given.
#[derive(Debug, Clone, PartialEq, Eq)]
pub struct CheckModuleSizesArgs {
    pub root: String,
    pub config: Option<String>,
}

/// What the watchdog is given; the timeout is in seconds.
#[derive(Debug, Clone, PartialEq, Eq)]
pub struct TestWatchdogArgs {
    pub suite: Option<String>,
    pub all: bool,
    pub pattern: Option<String>,
    pub timeout: u64,
    pub continue_on_fail: bool,
    pub root: String,
}

/// What is asked of the documents.
pub struct DocsConfig {
    pub required: Vec<String>,
    pub exclude_paths: Vec<String>,
    pub forbidden_paths: Vec<String>,
    pub forbidden_text: Vec<String>,
}

impl Default for DocsConfig {
    fn default() -> (r: Self)
        ensures
            r.required@.len() == 0,
            r.exclude_paths@.len() == 0,
            r.forbidden_paths@.len() == 0,
            r.forbidden_text@.len() == 0,
    {
        DocsConfig {
            required: Vec::new(),
            exclude_paths: Vec::new(),
            forbidden_paths: Vec::new(),
            forbidden_text: Vec::new(),
        }
    }
}

/// What is asked of the benchmarks.
pub struct BenchmarkConfig {
    pub documentation: Vec<String>,
    pub workflow: String,
    pub not_pr_gate_phrase: Option<String>,
}

/// The documents that tell of benchmarks where nothing else is configured.
pub open spec fn default_documentation() -> Seq<Seq<char>> {
    seq![
        "docs/development/benchmarks.md"@,
        "docs/development/performance-targets.md"@,
        "docs/operations/performance-tuning.md"@,
    ]
}

pub fn default_benchmark_docs() -> (r: Vec<String>)
    ensures
        views(r@) == default_documentation(),
{
    let mut r: Vec<String> = Vec::new();
    r.push("docs/development/benchmarks.md".to_owned());
    r.push("docs/development/performance-targets.md".to_owned());
    r.push("docs/operations/performance-tuning.md".to_owned());
    assert(views(r@) =~= default_documentation());
    r
}

pub fn default_benchmark_workflow() -> (r: String)
    ensures
        r@ == ".github/workflows/bench.yml"@,
{
    ".github/workflows/bench.yml".to_owned()
}

impl Default for BenchmarkConfig {
    fn default() -> (r: Self)
        ensures
            views(r.documentation@) == default_documentation(),
            r.workflow@ == ".github/workflows/bench.yml"@,
            r.not_pr_gate_phrase is None,
    {
        BenchmarkConfig {
            documentation: default_benchmark_docs(),
            workflow: default_benchmark_workflow(),
            not_pr_gate_phrase: None,
        }
    }
}

/// What is asked of the modules.
pub struct ModuleSizeConfig {
    pub warn_lines: usize,
    pub max_lines: usize,
    pub allowlist: Vec<String>,
    pub legacy_allowlist: Vec<String>,
}

pub fn default_warn() -> (r: usize)
    ensures
        r == 1_200,
{
    1_200
}

pub fn default_max() -> (r: usize)
    ensures
        r == 1_600,
{
    1_600
}

impl Default for ModuleSizeConfig {
    fn default() -> (r: Self)
        ensures
            r.warn_lines == 1_200,
            r.max_lines == 1_600,
            r.allowlist@.len() == 0,
            r.legacy_allowlist@.len() == 0,
    {
        ModuleSizeConfig {
            warn_lines: default_warn(),
            max_lines: default_max(),
            allowlist: Vec::new(),
            legacy_allowlist: Vec::new(),
        }
    }
}

/// A text in quotes, with what cannot be shown escaped.
pub uninterp spec fn quoted(text: Seq<char>) -> Seq<char>;

/// The `Debug` text of a `str`: it depends on the characters alone.
#[verifier::external_body]
pub(crate) fn quote(text: &str) -> (r: String)
    ensures
        r@ == quoted(text@),
{
    format!("{:?}", text)
}

} // verus!
