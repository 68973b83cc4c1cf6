//! Benchmarks: whether documents and the workflow tell of those that there are.

use vstd::prelude::*;

use super::{quote, quoted};
use crate::copies::option_view;
use crate::json::reading::{
    items_in, json_tree, json_trees, list_member, parse_json, parsed_json, text_in, text_items,
    text_member, texts_among, JsonTree,
};
use crate::names::{listed, Names};
use crate::paths::{is_in_directory, stands_in, Separators};
use crate::patterns::{pattern_fault, pattern_matches, Match, MatchView, Pattern};
use crate::select::{describe_wanted, texts, wanted, Describe, Select};
use crate::seqs::{
    any, first_where, first_where_at, first_where_none, flat, keep, mapped, take_all, take_step,
    views,
};
use crate::text::{contains, contains_text, has_prefix, same, starts_with, strip_end, trim_end_char};

verus! {

broadcast use {vstd::std_specs::vec::group_vec_axioms, crate::seqs::group_views};

/// What the run of a benchmark looks like in documents and workflows.
pub const BENCH_PATTERN: &'static str =
    "cargo\\s+bench\\s+--bench\\s+['\\\"`]?([A-Za-z0-9_.*-]+)";

/// A target of a package: its name, and what kinds of target it is.
pub struct MetadataTarget {
    pub name: Option<String>,
    pub kinds: Vec<String>,
}

#[verifier::ext_equal]
pub struct MetadataTargetView {
    pub name: Option<Seq<char>>,
    pub kinds: Seq<Seq<char>>,
}

impl View for MetadataTarget {
    type V = MetadataTargetView;

    open spec fn view(&self) -> MetadataTargetView {
        MetadataTargetView { name: option_view(self.name), kinds: views(self.kinds@) }
    }
}

/// A package of Cargo's metadata.
pub struct MetadataPackage {
    pub manifest_path: Option<String>,
    pub targets: Vec<MetadataTarget>,
}

#[verifier::ext_equal]
pub struct MetadataPackageView {
    pub manifest_path: Option<Seq<char>>,
    pub targets: Seq<MetadataTargetView>,
}

impl View for MetadataPackage {
    type V = MetadataPackageView;

    open spec fn view(&self) -> MetadataPackageView {
        MetadataPackageView {
            manifest_path: option_view(self.manifest_path),
            targets: views(self.targets@),
        }
    }
}

/// A target as Cargo's metadata tells of it.
pub open spec fn target_of(tree: JsonTree) -> MetadataTargetView {
    MetadataTargetView {
        name: text_in(tree, "name"@),
        kinds: texts_among(items_in(tree, "kind"@)),
    }
}

/// A package as Cargo's metadata tells of it.
pub open spec fn package_of(tree: JsonTree) -> MetadataPackageView {
    MetadataPackageView {
        manifest_path: text_in(tree, "manifest_path"@),
        targets: mapped(items_in(tree, "targets"@), |target: JsonTree| target_of(target)),
    }
}

/// The packages that Cargo's metadata tells of.
pub open spec fn packages_of(tree: JsonTree) -> Seq<MetadataPackageView> {
    mapped(items_in(tree, "packages"@), |package: JsonTree| package_of(package))
}

/// The packages of Cargo's metadata as text, or why the text is none.
pub open spec fn cargo_packages(text: Seq<char>) -> Result<Seq<MetadataPackageView>, Seq<char>> {
    match parsed_json(text) {
        Ok(tree) => Ok(packages_of(tree)),
        Err(message) => Err(message),
    }
}

fn read_targets(value: &serde_json::Value) -> (r: Vec<MetadataTarget>)
    ensures
        views(r@) == package_of(json_tree(*value)).targets,
{
    let ghost f = |target: JsonTree| target_of(target);
    let mut out: Vec<MetadataTarget> = Vec::new();
    let items = match list_member(value, "targets") {
        Some(items) => items,
        None => {
            assert(views(out@) =~= package_of(json_tree(*value)).targets);
            return out;
        },
    };
    let ghost all = json_trees(items@);
    let mut i: usize = 0;
    while i < items.len()
        invariant
            all == json_trees(items@),
            f == (|target: JsonTree| target_of(target)),
            i <= items@.len(),
            views(out@) =~= mapped(all.take(i as int), f),
        decreases items@.len() - i,
    {
        let target = MetadataTarget {
            name: text_member(&items[i], "name"),
            kinds: text_items(&items[i], "kind"),
        };
        assert(target@ =~= f(all[i as int]));
        out.push(target);
        i += 1;
    }
    proof {
        take_all(all);
    }
    out
}

/// The packages that Cargo's metadata tells of.
pub fn metadata_packages(value: &serde_json::Value) -> (r: Vec<MetadataPackage>)
    ensures
        views(r@) == packages_of(json_tree(*value)),
{
    let ghost f = |package: JsonTree| package_of(package);
    let mut out: Vec<MetadataPackage> = Vec::new();
    let items = match list_member(value, "packages") {
        Some(items) => items,
        None => {
            assert(views(out@) =~= packages_of(json_tree(*value)));
            return out;
        },
    };
    let ghost all = json_trees(items@);
    let mut i: usize = 0;
    while i < items.len()
        invariant
            all == json_trees(items@),
            f == (|package: JsonTree| package_of(package)),
            i <= items@.len(),
            views(out@) =~= mapped(all.take(i as int), f),
        decreases items@.len() - i,
    {
        let package = MetadataPackage {
            manifest_path: text_member(&items[i], "manifest_path"),
            targets: read_targets(&items[i]),
        };
        assert(package@ =~= f(all[i as int]));
        out.push(package);
        i += 1;
    }
    proof {
        take_all(all);
    }
    out
}

/// What was read of Cargo's metadata.
pub open spec fn metadata_result(r: Result<Vec<MetadataPackage>, String>) -> Result<
    Seq<MetadataPackageView>,
    Seq<char>,
> {
    match r {
        Ok(packages) => Ok(views(packages@)),
        Err(message) => Err(message@),
    }
}

/// Reads the packages of Cargo's metadata; where the text is no JSON, tells why.
pub fn read_metadata(text: &str) -> (r: Result<Vec<MetadataPackage>, String>)
    ensures
        metadata_result(r) == cargo_packages(text@),
{
    match parse_json(text) {
        Ok(value) => Ok(metadata_packages(&value)),
        Err(message) => Err(message),
    }
}

/// Whether a package's manifest stands in a directory.
pub open spec fn is_package_of(
    package: MetadataPackageView,
    root: Seq<char>,
    separators: Separators,
) -> bool {
    package.manifest_path matches Some(path) && stands_in(path, root, separators)
}

/// The name of a target that is a benchmark, as a sequence of none or one.
pub open spec fn bench_name(target: MetadataTargetView) -> Seq<Seq<char>> {
    match target.name {
        Some(name) => if target.kinds.contains("bench"@) {
            seq![name]
        } else {
            seq![]
        },
        None => seq![],
    }
}

/// The benchmarks of a package.
pub open spec fn benchmarks_of(package: MetadataPackageView) -> Set<Seq<char>> {
    flat(package.targets, |target: MetadataTargetView| bench_name(target)).to_set()
}

/// The benchmarks of the package that stands in a directory, where there is one.
pub open spec fn registered_in(
    packages: Seq<MetadataPackageView>,
    root: Seq<char>,
    separators: Separators,
) -> Option<Set<Seq<char>>> {
    match first_where(
        packages,
        |package: MetadataPackageView| is_package_of(package, root, separators),
    ) {
        Some(package) => Some(benchmarks_of(package)),
        None => None,
    }
}

fn is_bench(target: &MetadataTarget) -> (r: bool)
    ensures
        r == target@.kinds.contains("bench"@),
{
    let mut i: usize = 0;
    while i < target.kinds.len()
        invariant
            i <= target.kinds@.len(),
            forall|j: int| 0 <= j < i ==> #[trigger] views(target.kinds@)[j] != "bench"@,
        decreases target.kinds@.len() - i,
    {
        if same(target.kinds[i].as_str(), "bench") {
            assert(views(target.kinds@)[i as int] == "bench"@);
            return true;
        }
        i += 1;
    }
    false
}

fn collect_benchmarks(package: &MetadataPackage) -> (r: Names)
    ensures
        r@ == benchmarks_of(package@),
{
    let ghost all = views(package.targets@);
    let ghost f = |target: MetadataTargetView| bench_name(target);
    let mut r = Names::new();
    let mut i: usize = 0;
    assert(flat(all.take(0), f).to_set() =~= Set::<Seq<char>>::empty());
    while i < package.targets.len()
        invariant
            all == views(package.targets@),
            f == (|target: MetadataTargetView| bench_name(target)),
            i <= package.targets@.len(),
            r@ == flat(all.take(i as int), f).to_set(),
        decreases package.targets@.len() - i,
    {
        let ghost before = flat(all.take(i as int), f);
        proof {
            take_step(all, i as int);
        }
        match &package.targets[i].name {
            Some(name) => {
                if is_bench(&package.targets[i]) {
                    r.insert(name.clone());
                    proof {
                        assert(before + seq![name@] =~= before.push(name@));
                        crate::names::set_of_push(before, name@);
                    }
                } else {
                    assert(before + seq![] =~= before);
                }
            },
            None => {
                assert(before + seq![] =~= before);
            },
        }
        i += 1;
    }
    proof {
        take_all(all);
    }
    r
}

/// The benchmarks of the package that stands in a directory.
pub fn registered_benchmarks(
    packages: &Vec<MetadataPackage>,
    root: &str,
    separators: Separators,
) -> (r: Option<Names>)
    ensures
        option_view(r) == registered_in(views(packages@), root@, separators),
{
    let ghost all = views(packages@);
    let ghost p = |package: MetadataPackageView| is_package_of(package, root@, separators);
    let mut i: usize = 0;
    while i < packages.len()
        invariant
            all == views(packages@),
            p == (|package: MetadataPackageView| is_package_of(package, root@, separators)),
            i <= packages@.len(),
            forall|j: int| 0 <= j < i ==> !p(#[trigger] all[j]),
        decreases packages@.len() - i,
    {
        let here = match &packages[i].manifest_path {
            Some(path) => is_in_directory(path.as_str(), root, separators),
            None => false,
        };
        if here {
            proof {
                assert(p(all[i as int]));
                first_where_at(all, p, i as int);
            }
            return Some(collect_benchmarks(&packages[i]));
        }
        i += 1;
    }
    proof {
        first_where_none(all, p);
    }
    None
}

/// Runs of benchmarks in a document that there are not.
pub struct Unregistered<'a> {
    pub path: &'a str,
    pub registered: &'a Names,
}

impl<'a> Select<Match> for Unregistered<'a> {
    open spec fn wants(&self, found: MatchView) -> bool {
        !self.registered@.contains(found.group_text(1))
    }

    fn accepts(&self, found: &Match) -> (r: bool) {
        !self.registered.contains(found.group_text(1).as_str())
    }
}

impl<'a> Describe<Match> for Unregistered<'a> {
    open spec fn ready(&self) -> bool {
        true
    }

    open spec fn text(&self, found: MatchView) -> Seq<char> {
        self.path@ + " advertises unregistered benchmark "@ + found.group_text(1)
    }

    fn describe(&self, found: &Match) -> (r: String) {
        let mut out = self.path.to_owned();
        out.append(" advertises unregistered benchmark ");
        out.append(found.group_text(1).as_str());
        out
    }
}

/// What is wrong with a document that tells of benchmarks.
pub open spec fn document_errors(
    path: Seq<char>,
    text: Seq<char>,
    registered: Set<Seq<char>>,
    pattern: Seq<char>,
) -> Seq<Seq<char>> {
    mapped(
        keep(
            pattern_matches(pattern, text),
            |found: MatchView| !registered.contains(found.group_text(1)),
        ),
        |found: MatchView| path + " advertises unregistered benchmark "@ + found.group_text(1),
    ) + (if contains_text(text, "--save-baseline"@) || contains_text(text, "--baseline"@) {
        seq![path + " advertises obsolete Criterion baseline flags"@]
    } else {
        seq![]
    })
}

/// Whether a run of benchmarks runs one of them: by its name, or by the start of it.
pub open spec fn runs(found: MatchView, target: Seq<char>) -> bool {
    let name = found.group_text(1);
    name == target || (contains_text(name, "*"@) && has_prefix(target, strip_end(name, '*')))
}

fn is_run(found: &Match, target: &str) -> (r: bool)
    ensures
        r == runs(found@, target@),
{
    let name = found.group_text(1);
    same(name.as_str(), target) || (contains(name.as_str(), "*") && starts_with(
        target,
        trim_end_char(name.as_str(), '*').as_str(),
    ))
}

/// Benchmarks that no run in a workflow runs.
pub struct NeverRun<'a> {
    pub runs: &'a Vec<Match>,
}

impl<'a> Select<String> for NeverRun<'a> {
    open spec fn wants(&self, target: Seq<char>) -> bool {
        !any(views(self.runs@), |found: MatchView| runs(found, target))
    }

    fn accepts(&self, target: &String) -> (r: bool) {
        let ghost all = views(self.runs@);
        let ghost p = |found: MatchView| runs(found, target@);
        let mut i: usize = 0;
        while i < self.runs.len()
            invariant
                all == views(self.runs@),
                p == (|found: MatchView| runs(found, target@)),
                i <= self.runs@.len(),
                forall|j: int| 0 <= j < i ==> !p(#[trigger] all[j]),
            decreases self.runs@.len() - i,
        {
            if is_run(&self.runs[i], target.as_str()) {
                assert(p(all[i as int]));
                return false;
            }
            i += 1;
        }
        true
    }
}

impl<'a> Describe<String> for NeverRun<'a> {
    open spec fn ready(&self) -> bool {
        true
    }

    open spec fn text(&self, target: Seq<char>) -> Seq<char> {
        "benchmark workflow does not execute "@ + target
    }

    fn describe(&self, target: &String) -> (r: String) {
        let mut out = "benchmark workflow does not execute ".to_owned();
        out.append(target.as_str());
        out
    }
}

/// What is wrong with the workflow that runs benchmarks.
pub open spec fn workflow_errors(
    workflow: Seq<char>,
    registered: Set<Seq<char>>,
    pattern: Seq<char>,
) -> Seq<Seq<char>> {
    mapped(
        keep(
            listed(registered),
            |target: Seq<char>|
                !any(pattern_matches(pattern, workflow), |found: MatchView| runs(found, target)),
        ),
        |target: Seq<char>| "benchmark workflow does not execute "@ + target,
    ) + (if contains_text(workflow, "workflow_dispatch:"@) {
        seq![]
    } else {
        seq!["benchmark workflow has no manual trigger"@]
    }) + (if contains_text(workflow, "pull_request:"@) {
        seq!["benchmark workflow must not be a pull-request gate"@]
    } else {
        seq![]
    })
}

/// What is wrong with the documents as a whole: `phrase` must be in one of them.
pub open spec fn phrase_errors(docs: Seq<char>, phrase: Option<Seq<char>>) -> Seq<Seq<char>> {
    match phrase {
        Some(text) => if contains_text(docs, text) {
            seq![]
        } else {
            seq!["benchmark docs do not contain required phrase "@ + quoted(text)]
        },
        None => seq![],
    }
}

/// A check of benchmarks under way.
pub struct BenchmarkCheck {
    pub registered: Names,
    pub pattern: Pattern,
    pub docs: String,
    pub errors: Vec<String>,
}

#[verifier::ext_equal]
pub struct BenchmarkCheckView {
    pub registered: Set<Seq<char>>,
    pub pattern: Seq<char>,
    pub docs: Seq<char>,
    pub errors: Seq<Seq<char>>,
}

impl View for BenchmarkCheck {
    type V = BenchmarkCheckView;

    open spec fn view(&self) -> BenchmarkCheckView {
        BenchmarkCheckView {
            registered: self.registered@,
            pattern: self.pattern@,
            docs: self.docs@,
            errors: views(self.errors@),
        }
    }
}

impl BenchmarkCheck {
    /// Starts with the benchmarks that there are.
    pub fn start(registered: Names) -> (r: Result<BenchmarkCheck, String>)
        ensures
            match r {
                Ok(check) => check@ == (BenchmarkCheckView {
                    registered: registered@,
                    pattern: BENCH_PATTERN@,
                    docs: seq![],
                    errors: seq![],
                }) && pattern_fault(BENCH_PATTERN@) is None,
                Err(message) => pattern_fault(BENCH_PATTERN@) == Some(message@),
            },
    {
        match Pattern::new(BENCH_PATTERN) {
            Ok(pattern) => {
                let check = BenchmarkCheck {
                    registered,
                    pattern,
                    docs: String::new(),
                    errors: Vec::new(),
                };
                assert(check@.docs =~= seq![]);
                assert(check@.errors =~= seq![]);
                Ok(check)
            },
            Err(message) => Err(message),
        }
    }

    /// Reads a document that tells of benchmarks.
    pub fn add_document(&mut self, path: &str, text: &str)
        ensures
            final(self)@ == (BenchmarkCheckView {
                docs: old(self)@.docs + text@,
                errors: old(self)@.errors + document_errors(
                    path@,
                    text@,
                    old(self)@.registered,
                    old(self)@.pattern,
                ),
                ..old(self)@
            }),
    {
        let ghost before = self@;
        let found = self.pattern.find_all(text);
        {
            let unregistered = Unregistered { path, registered: &self.registered };
            describe_wanted(&mut self.errors, &found, &unregistered);
            proof {
                assert(wanted::<Match, Unregistered>(&unregistered) =~= (|found: MatchView|
                    !before.registered.contains(found.group_text(1))));
                assert(texts::<Match, Unregistered>(&unregistered) =~= (|found: MatchView|
                    path@ + " advertises unregistered benchmark "@ + found.group_text(1)));
            }
        }
        if contains(text, "--save-baseline") || contains(text, "--baseline") {
            let mut error = path.to_owned();
            error.append(" advertises obsolete Criterion baseline flags");
            self.errors.push(error);
        }
        self.docs.append(text);
        assert(self@.errors =~= before.errors + document_errors(
            path@,
            text@,
            before.registered,
            before.pattern,
        ));
    }

    /// Reads the workflow, once all documents are read.
    pub fn add_workflow(&mut self, workflow: &str, phrase: Option<&str>)
        ensures
            final(self)@ == (BenchmarkCheckView {
                errors: old(self)@.errors + workflow_errors(
                    workflow@,
                    old(self)@.registered,
                    old(self)@.pattern,
                ) + phrase_errors(old(self)@.docs, option_view(phrase)),
                ..old(self)@
            }),
    {
        let ghost before = self@;
        let found = self.pattern.find_all(workflow);
        let never_run = NeverRun { runs: &found };
        describe_wanted(&mut self.errors, self.registered.as_vec(), &never_run);
        proof {
            assert(wanted::<String, NeverRun>(&never_run) =~= (|target: Seq<char>|
                !any(
                    pattern_matches(before.pattern, workflow@),
                    |found: MatchView| runs(found, target),
                )));
            assert(texts::<String, NeverRun>(&never_run) =~= (|target: Seq<char>|
                "benchmark workflow does not execute "@ + target));
        }
        if !contains(workflow, "workflow_dispatch:") {
            self.errors.push("benchmark workflow has no manual trigger".to_owned());
        }
        if contains(workflow, "pull_request:") {
            self.errors.push("benchmark workflow must not be a pull-request gate".to_owned());
        }
        match phrase {
            Some(text) => {
                if !contains(self.docs.as_str(), text) {
                    let mut error = "benchmark docs do not contain required phrase ".to_owned();
                    error.append(quote(text).as_str());
                    self.errors.push(error);
                }
            },
            None => {},
        }
        assert(self@.errors =~= before.errors + workflow_errors(
            workflow@,
            before.registered,
            before.pattern,
        ) + phrase_errors(before.docs, option_view(phrase)));
    }
}

} // verus!
