use cntryl_tools::generate_inventory::{
    found_line, is_commented_out, render_markdown, Inventory, InventoryPatterns,
};
use cntryl_tools::names::Names;
use cntryl_tools::paths::{
    is_in_directory, join_path, relative, stem_of_rust_file, Separators,
};
use cntryl_tools::repository_checks::benchmarks::{
    metadata_packages, read_metadata, registered_benchmarks, BenchmarkCheck, MetadataPackage,
    MetadataTarget,
};
use cntryl_tools::repository_checks::docs::{
    enters, heading_ids, is_excluded, markdown_links, slug, DocsCheck, FoundLink, Link,
};
use cntryl_tools::repository_checks::modules::{
    check_module, is_checked_module, judge_size, production_lines,
};
use cntryl_tools::repository_checks::watchdog::{
    has_target, select_tests, watch, Step, Watchdog,
};
use cntryl_tools::repository_checks::{BenchmarkConfig, DocsConfig, ModuleSizeConfig};

fn names(items: &[&str]) -> Names {
    let mut names = Names::new();
    for item in items {
        names.insert(item.to_string());
    }
    names
}

fn texts(items: &[&str]) -> Vec<String> {
    items.iter().map(|item| item.to_string()).collect()
}

#[test]
fn should_exclude_configured_directory_and_children() {
    let root = "/repo";
    assert!(is_excluded(
        root,
        "/repo/ui/node_modules/pkg/readme.md",
        Separators::Slash,
        &vec!["ui/node_modules".into()]
    ));
    assert!(!is_excluded(
        root,
        "/repo/ui/docs/readme.md",
        Separators::Slash,
        &vec!["ui/node_modules".into()]
    ));
}

#[test]
fn should_exclude_by_whole_names() {
    let excluded = vec!["docs/old/".to_string()];
    let is_out = |path| is_excluded("/repo", path, Separators::Slash, &excluded);
    assert!(is_out("/repo/docs/old"));
    assert!(is_out("/repo/docs/old/a/b.md"));
    assert!(!is_out("/repo/docs/older.md"));
}

#[test]
fn should_exclude_below_doubled_slashes_and_dots() {
    let excluded = vec!["ui".to_string()];
    let is_out = |root, path| is_excluded(root, path, Separators::Slash, &excluded);
    assert!(is_out("/repo", "/repo//ui/a.md"));
    assert!(is_out("/repo", "/repo/./ui/a.md"));
    assert!(is_out("/repo/", "/repo/ui"));
    assert!(is_out("/./repo", "/repo/ui//a.md"));
    assert!(!is_out("/repo", "/repo/docs//ui/a.md"));
    assert!(!is_out("/repo", "/repo/../ui/a.md"));
}

#[test]
fn should_part_names_at_backslashes_where_told() {
    let excluded = vec!["ui".to_string()];
    let is_out = |separators| is_excluded("C:\\repo", "C:\\repo\\ui\\a.md", separators, &excluded);
    assert!(is_out(Separators::Both));
    assert!(!is_out(Separators::Slash));
}

#[test]
fn should_not_search_hidden_and_built_files() {
    let none = Vec::new();
    let goes = |depth, name, root, path| enters(depth, name, root, path, Separators::Slash, &none);
    assert!(goes(0, "target", "/target", "/target"));
    assert!(!goes(1, "target", "/repo", "/repo/target"));
    assert!(!goes(1, ".git", "/repo", "/repo/.git"));
    assert!(goes(1, "docs", "/repo", "/repo/docs"));
}

#[test]
fn should_make_anchors_of_headings() {
    assert_eq!(slug("Getting  Started: the Basics!"), "getting-started-the-basics");
    assert_eq!(slug("A-B \t C"), "a-b-c");
    assert_eq!(slug("Über"), "ber");
    let ids = heading_ids("# One\n## Two Words ##\n#NoSpace\ntext # no\n###### Deep\n");
    assert_eq!(*ids.as_vec(), texts(&["deep", "one", "two-words"]));
}

#[test]
fn should_find_links_with_anchors() {
    let links = markdown_links("see [a](b.md#c d) and [x](https://e.org) or [y](#z)");
    let shown: Vec<(String, Option<String>)> = links
        .into_iter()
        .map(|link| (link.target, link.anchor))
        .collect();
    assert_eq!(
        shown,
        vec![
            ("b.md".to_string(), Some("c d".to_string())),
            ("https://e.org".to_string(), None),
            ("".to_string(), Some("z".to_string())),
        ]
    );
}

fn leads(name: &str, link: Link, found: bool, target_name: &str) -> FoundLink {
    FoundLink {
        name: name.to_string(),
        link,
        found,
        target_name: target_name.to_string(),
    }
}

fn checked(documents: &[(&str, &str)]) -> Vec<String> {
    let config = DocsConfig::default();
    let present: Vec<&str> = documents.iter().map(|(name, _)| *name).collect();
    let mut check = DocsCheck::start(&config, &names(&present));
    for (name, text) in documents {
        for link in check.add_document(name, text, &config) {
            let target = link.target.clone();
            let found = present.contains(&target.as_str());
            check.add_link(leads(name, link, found, &target));
        }
    }
    check.finish()
}

#[test]
fn should_know_anchors_of_documents_read_later() {
    let a = ("a.md", "[x](b.md#intro)\n");
    let b = ("b.md", "# Intro\n");
    assert!(checked(&[a, b]).is_empty());
    assert!(checked(&[b, a]).is_empty());
}

#[test]
fn should_find_the_same_broken_anchors_in_every_order() {
    let a = ("a.md", "[x](b.md#gone) [y](c.md#there)\n");
    let b = ("b.md", "# Intro\n[z](a.md#nowhere)\n");
    let c = ("c.md", "## There\n");
    let mut forward = checked(&[a, b, c]);
    let mut backward = checked(&[c, b, a]);
    forward.sort();
    backward.sort();
    assert_eq!(
        forward,
        texts(&[
            "a.md: broken anchor b.md#gone",
            "b.md: broken anchor a.md#nowhere",
        ])
    );
    assert_eq!(forward, backward);
}

#[test]
fn should_tell_what_is_wrong_with_documents() {
    // Arrange
    let config = DocsConfig {
        required: texts(&["README.md", "GUIDE.md"]),
        exclude_paths: Vec::new(),
        forbidden_paths: texts(&["OLD.md"]),
        forbidden_text: texts(&["TO\"DO"]),
    };
    let mut check = DocsCheck::start(&config, &names(&["README.md", "OLD.md"]));

    // Act
    let links = check.add_document(
        "README.md",
        "# Title\nTO\"DO [a](OLD.md#title) [b](README.md#title) [c](mailto:x) [d](gone.md)\n",
        &config,
    );
    assert_eq!(links.len(), 3);
    let mut places = vec![(true, "OLD.md"), (true, "README.md"), (false, "gone.md")].into_iter();
    for link in links {
        let (found, target) = places.next().expect("place");
        check.add_link(leads("README.md", link, found, target));
    }
    let links = check.add_document("OLD.md", "# Heading\n", &config);
    assert!(links.is_empty());

    // Assert
    assert_eq!(
        check.finish(),
        texts(&[
            "missing required document: GUIDE.md",
            "forbidden document is present: OLD.md",
            "README.md: forbidden documentation text \"TO\\\"DO\"",
            "README.md: broken anchor OLD.md#title",
            "README.md: broken local link gone.md",
        ])
    );
}

fn package(path: &str, targets: &[(&str, &str)]) -> MetadataPackage {
    MetadataPackage {
        manifest_path: Some(path.to_string()),
        targets: targets
            .iter()
            .map(|(name, kind)| MetadataTarget {
                name: Some(name.to_string()),
                kinds: vec![kind.to_string()],
            })
            .collect(),
    }
}

#[test]
fn should_find_the_benchmarks_of_the_repository() {
    let packages = vec![
        package("/other/Cargo.toml", &[("other", "bench")]),
        package(
            "/repo/Cargo.toml",
            &[("fast", "bench"), ("tool", "bin"), ("all", "bench")],
        ),
    ];
    let found = registered_benchmarks(&packages, "/repo", Separators::Slash).expect("package");
    assert_eq!(*found.as_vec(), texts(&["all", "fast"]));
    assert!(registered_benchmarks(&packages, "/elsewhere", Separators::Slash).is_none());
}

#[test]
fn should_find_packages_below_backslashes() {
    let packages = vec![package("C:\\repo\\Cargo.toml", &[("fast", "bench")])];
    let found = registered_benchmarks(&packages, "C:\\repo", Separators::Both).expect("package");
    assert_eq!(*found.as_vec(), texts(&["fast"]));
    assert!(registered_benchmarks(&packages, "C:\\other", Separators::Both).is_none());
    assert!(registered_benchmarks(&packages, "C:\\repo", Separators::Slash).is_none());
}

#[test]
fn should_read_packages_from_metadata() {
    // Arrange
    let text = r#"{
        "version": 1,
        "packages": [
            {"manifest_path": 7, "targets": {}},
            {
                "manifest_path": "/repo/Cargo.toml",
                "targets": [
                    {"name": "fast", "kind": ["lib", 3, "bench"]},
                    {"name": null, "kind": "bench"}
                ]
            }
        ]
    }"#;

    // Act
    let packages = read_metadata(text).expect("metadata");

    // Assert
    assert_eq!(packages.len(), 2);
    assert_eq!(packages[0].manifest_path, None);
    assert!(packages[0].targets.is_empty());
    assert_eq!(packages[1].manifest_path.as_deref(), Some("/repo/Cargo.toml"));
    assert_eq!(packages[1].targets.len(), 2);
    assert_eq!(packages[1].targets[0].name.as_deref(), Some("fast"));
    assert_eq!(packages[1].targets[0].kinds, texts(&["lib", "bench"]));
    assert_eq!(packages[1].targets[1].name, None);
    assert!(packages[1].targets[1].kinds.is_empty());
    let found = registered_benchmarks(&packages, "/repo", Separators::Slash).expect("package");
    assert_eq!(*found.as_vec(), texts(&["fast"]));
}

#[test]
fn should_tell_why_metadata_cannot_be_read() {
    let message = read_metadata("{").err().expect("error");
    assert!(message.contains("EOF"));
    assert!(read_metadata("[]").expect("metadata").is_empty());
    assert!(read_metadata("{\"packages\": 1}").expect("metadata").is_empty());
    assert!(metadata_packages(&serde_json::Value::Null).is_empty());
}

#[test]
fn should_hold_documents_and_workflow_against_the_benchmarks() {
    // Arrange
    let mut check = BenchmarkCheck::start(names(&["io_read", "io_write", "parse"]))
        .expect("pattern");

    // Act
    check.add_document(
        "docs/a.md",
        "cargo bench --bench parse\ncargo  bench --bench 'gone' -- --baseline main\n",
    );
    check.add_workflow(
        "on: pull_request:\nrun: cargo bench --bench io_*\n",
        Some("not a gate"),
    );

    // Assert
    assert_eq!(
        check.errors,
        texts(&[
            "docs/a.md advertises unregistered benchmark gone",
            "docs/a.md advertises obsolete Criterion baseline flags",
            "benchmark workflow does not execute parse",
            "benchmark workflow has no manual trigger",
            "benchmark workflow must not be a pull-request gate",
            "benchmark docs do not contain required phrase \"not a gate\"",
        ])
    );
}

#[test]
fn should_accept_a_matching_benchmark_contract() {
    let mut check = BenchmarkCheck::start(names(&["parse"])).expect("pattern");
    check.add_document("docs/a.md", "`cargo bench --bench parse`, not a gate\n");
    check.add_workflow(
        "on:\n  workflow_dispatch:\nrun: cargo bench --bench parse\n",
        Some("not a gate"),
    );
    assert!(check.errors.is_empty());
}

#[test]
fn should_have_defaults() {
    assert_eq!(
        BenchmarkConfig::default().workflow,
        ".github/workflows/bench.yml"
    );
    assert_eq!(BenchmarkConfig::default().documentation.len(), 3);
    assert_eq!(ModuleSizeConfig::default().warn_lines, 1_200);
    assert_eq!(ModuleSizeConfig::default().max_lines, 1_600);
    assert!(DocsConfig::default().required.is_empty());
}

#[test]
fn should_count_production_lines() {
    let text = "\
//! Module.
use a;

fn one() {
    // comment
    two();
}

#[cfg(test)]
mod tests {
    fn inner() {}
}

#[cfg(test)]
use helper;
fn three() {}
";
    assert_eq!(production_lines(text), 5);
    assert_eq!(production_lines(""), 0);
}

#[test]
fn should_judge_modules_by_their_size() {
    let config = ModuleSizeConfig {
        warn_lines: 1,
        max_lines: 2,
        allowlist: texts(&["src/big.rs"]),
        legacy_allowlist: texts(&["src/old.rs"]),
    };
    let big = judge_size(3, "src/big.rs", &config);
    assert_eq!(big.warning.as_deref(), Some("    3 src/big.rs [allowlist]"));
    assert_eq!(big.failure, None);
    let old = judge_size(3, "src/old.rs", &config);
    assert_eq!(old.warning.as_deref(), Some("    3 src/old.rs"));
    assert_eq!(old.failure, None);
    let new = check_module("src/new.rs", "a;\nb;\nc;\n", &config);
    assert_eq!(new.failure.as_deref(), Some("    3 src/new.rs"));
    let small = check_module("src/new.rs", "a;\n", &config);
    assert_eq!(small.warning, None);
}

#[test]
fn should_check_rust_files_that_are_no_tests() {
    assert!(is_checked_module("lib.rs"));
    assert!(!is_checked_module("tests.rs"));
    assert!(!is_checked_module("lib.txt"));
    assert!(!is_checked_module(".rs"));
}

#[test]
fn should_want_a_suite_or_all() {
    assert_eq!(
        has_target(&None, false),
        Err("provide --suite <name> or --all".to_string())
    );
    assert_eq!(has_target(&None, true), Ok(()));
    assert_eq!(has_target(&Some("api".to_string()), false), Ok(()));
    assert_eq!(stem_of_rust_file("api.rs"), Some("api".to_string()));
    assert_eq!(stem_of_rust_file("api.v2.rs"), Some("api.v2".to_string()));
    assert_eq!(stem_of_rust_file("api.txt"), None);
}

#[test]
fn should_select_tests_of_a_listing() {
    let listing = "a::one: test\ntwo: test\nbench: benchmark\n\n2 tests, 1 benchmark\n";
    assert_eq!(
        select_tests("api", listing, None),
        texts(&["a::one", "two"])
    );
    assert_eq!(
        select_tests("api", listing, Some("api::t")),
        texts(&["two"])
    );
}

#[test]
fn should_watch_a_test() {
    assert_eq!(watch(Some(Some(3)), 0, 60), Step::Ended(3));
    assert_eq!(watch(Some(None), 0, 60), Step::Ended(1));
    assert_eq!(watch(None, 59_999, 60), Step::Wait);
    assert_eq!(watch(None, 60_000, 60), Step::Stop);
    assert_eq!(watch(None, u64::MAX, u64::MAX), Step::Wait);
}

#[test]
fn should_stop_at_the_first_failure_unless_told_otherwise() {
    let mut strict = Watchdog::new();
    assert_eq!(strict.note(0, false), None);
    assert_eq!(strict.exit_code(), 0);
    assert_eq!(strict.note(101, false), Some(2));
    assert_eq!(strict.note(124, false), Some(124));

    let mut lenient = Watchdog::new();
    assert_eq!(lenient.note(124, true), None);
    assert_eq!(lenient.exit_code(), 2);
}

#[test]
fn should_inventory_async_test_given_a_framework_qualified_attribute() {
    // Arrange
    let patterns = InventoryPatterns::new().expect("patterns");
    let mut inventory = Inventory::new();

    // Act
    inventory.add_tests(
        "tests/async_test.rs",
        "#[tokio::test]\nasync fn should_inventory_async_behavior() {}\n",
        &patterns,
    );

    // Assert
    assert_eq!(
        inventory
            .files
            .get("tests/async_test.rs")
            .map(|names| names.as_vec().clone()),
        Some(vec!["should_inventory_async_behavior".to_string()])
    );
}

#[test]
fn should_render_an_inventory() {
    // Arrange
    let patterns = InventoryPatterns::new().expect("patterns");
    let mut src = Inventory::new();
    src.add_tests("src/b.rs", "fn should_b() {}\nfn should_a() {}\nfn should_b() {}", &patterns);
    src.add_tests("src/empty.rs", "fn helper() {}\n", &patterns);
    let integration = Inventory::new();
    let mut benches = Inventory::new();
    benches.add_benches(
        "benches/io.rs",
        "fn bench_read() {}\n#[stress_test(tier = 1)]\nfn hammer() {}\n",
        &patterns,
    );

    // Act
    let markdown = render_markdown(&src, &integration, &benches, "2024-01-02T03:04:05Z");

    // Assert
    assert_eq!(
        markdown,
        "# Test & Bench Inventory

_Generated 2024-01-02T03:04:05Z by `cntryl-tools generate-inventory`._

Complete inventory of all test and benchmark functions across cntryl.

**Src Tests**

- `src/b.rs`
  - tests:
    - `should_a`
    - `should_b`

**Integration Tests (tests/)**

(none)

**Benches & Stress (benches/)**

- `benches/io.rs`
  - benches & stress:
    - `bench_read`
    - `hammer`
"
    );
    assert_eq!(found_line(&src, "src tests"), "Found 2 src tests in 1 files");
}

#[test]
fn should_tell_what_is_commented_out() {
    assert!(is_commented_out("a\n // fn x", 6));
    assert!(is_commented_out("/* fn x", 3));
    assert!(!is_commented_out("// a\nfn x", 5));
    assert!(!is_commented_out("fn x", 0));
}

#[test]
fn should_handle_paths_as_texts() {
    assert_eq!(join_path("/repo", "target"), "/repo/target");
    assert_eq!(join_path("/", "target"), "/target");
    assert_eq!(join_path("", "target"), "target");
}

#[test]
fn should_see_paths_from_a_root() {
    let seen = |root, path| relative(root, path, Separators::Slash);
    assert_eq!(seen("/repo", "/repo/a\\b.md"), "a/b.md");
    assert_eq!(seen("/", "/a.md"), "a.md");
    assert_eq!(seen("/repo", "/other/a.md"), "/other/a.md");
    assert_eq!(seen("/repo", "/repo"), "");
    assert_eq!(seen("/repo", "/repository/a.md"), "/repository/a.md");
    assert_eq!(seen("/repo", "/repo//a.md"), "a.md");
    assert_eq!(seen("/repo/", "/repo/./docs//a.md"), "docs//a.md");
    assert_eq!(seen("/repo", "/repo/docs/"), "docs");
    assert_eq!(seen("", "docs/a.md"), "docs/a.md");
    assert_eq!(seen("", "./a.md"), "./a.md");
    assert_eq!(seen(".", "./a.md"), "a.md");
    assert_eq!(seen(".", "a.md"), "a.md");
    assert_eq!(seen("repo", "/repo/a.md"), "/repo/a.md");
    assert_eq!(seen("/repo", "/repo/../a.md"), "../a.md");
    assert_eq!(seen("C:\\repo", "C:\\repo\\a.md"), "C:/repo/a.md");
}

#[test]
fn should_see_paths_with_backslashes_from_a_root() {
    let seen = |root, path| relative(root, path, Separators::Both);
    assert_eq!(seen("C:\\repo", "C:\\repo\\docs\\a.md"), "docs/a.md");
    assert_eq!(seen("C:\\repo", "C:/repo/docs/a.md"), "docs/a.md");
    assert_eq!(seen("C:\\repo", "C:\\repository\\a.md"), "C:/repository/a.md");
}

#[test]
fn should_tell_what_stands_in_a_directory() {
    let stands = |path, directory| is_in_directory(path, directory, Separators::Slash);
    assert!(stands("/repo/Cargo.toml", "/repo"));
    assert!(stands("/repo//Cargo.toml", "/repo/"));
    assert!(stands("/repo/./Cargo.toml", "/repo"));
    assert!(stands("/Cargo.toml", "/"));
    assert!(stands("Cargo.toml", ""));
    assert!(!stands("/repo/a/Cargo.toml", "/repo"));
    assert!(!stands("/repo", "/repo"));
    assert!(!stands("/", ""));
    assert!(!stands("", ""));
    assert!(!stands("C:\\repo\\Cargo.toml", "C:\\repo"));
    assert!(is_in_directory("C:\\repo\\Cargo.toml", "C:\\repo", Separators::Both));
}
