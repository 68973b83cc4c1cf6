//! An inventory of the tests and benchmarks of a repository.

pub mod laws;

use vstd::prelude::*;

use crate::names::{listed, NameMap, Names};
use crate::patterns::{pattern_fault, pattern_matches, MatchView, Pattern};
use crate::seqs::{flat, keep, mapped, take_all, take_step, views};
use crate::text::{
    chars, decimal, find_back, has_prefix, join, joined, number, rfind, slice, starts_with, trim,
    trimmed,
};

verus! {

broadcast use {vstd::std_specs::vec::group_vec_axioms, crate::seqs::group_views};

/// What the command is given.
#[derive(Debug, Clone, PartialEq, Eq)]
pub struct GenerateInventoryArgs {
    pub root: String,
    pub output: String,
}

/// What the functions of tests look like.
pub const TEST_PATTERN: &'static str = "(?m)^\\s*(?:async\\s+)?fn\\s+(should_[A-Za-z0-9_]+)";

/// What the functions of benchmarks look like.
pub const BENCH_PATTERN: &'static str = "(?m)^\\s*fn\\s+(bench_[A-Za-z0-9_]+)";

/// What the functions of stress tests look like.
pub const STRESS_PATTERN: &'static str =
    "(?m)^\\s*#\\s*\\[\\s*stress_test.*\\]\\s*\\n\\s*fn\\s+([A-Za-z0-9_]+)";

/// What of its line stands before a place in a text.
pub open spec fn line_start(text: Seq<char>, at: int) -> Seq<char> {
    let before = text.take(at);
    match find_back(before, "\n"@, before.len() - 1) {
        Some(i) => before.skip(i + 1),
        None => before,
    }
}

/// Whether a place in a text stands in a comment that its line starts with.
pub open spec fn commented_out(text: Seq<char>, at: int) -> bool {
    let prefix = trimmed(line_start(text, at));
    has_prefix(prefix, "//"@) || has_prefix(prefix, "///"@) || has_prefix(prefix, "/*"@)
}

/// Whether a place in a text stands in a comment that its line starts with.
pub fn is_commented_out(text: &str, at: usize) -> (r: bool)
    requires
        at <= text@.len(),
    ensures
        r == commented_out(text@, at as int),
{
    proof {
        reveal_strlit("\n");
    }
    let before = slice(chars(text).as_slice(), 0, at);
    assert(before@ =~= text@.take(at as int));
    let letters = chars(before.as_str());
    let end: usize = letters.len();
    let start: usize = match rfind(letters.as_slice(), chars("\n").as_slice()) {
        Some(i) => i + 1,
        None => 0,
    };
    let line = slice(letters.as_slice(), start, end);
    assert(line@ =~= line_start(text@, at as int));
    let prefix = trim(line.as_str());
    starts_with(prefix.as_str(), "//") || starts_with(prefix.as_str(), "///") || starts_with(
        prefix.as_str(),
        "/*",
    )
}

/// The names that a pattern finds in a text, those in comments aside.
pub open spec fn names_found(pattern: Seq<char>, text: Seq<char>) -> Set<Seq<char>> {
    mapped(
        keep(
            pattern_matches(pattern, text),
            |found: MatchView| !commented_out(text, found.start as int),
        ),
        |found: MatchView| found.group_text(1),
    ).to_set()
}

/// The names that a pattern finds in a text.
pub open spec fn all_names_found(pattern: Seq<char>, text: Seq<char>) -> Set<Seq<char>> {
    mapped(
        pattern_matches(pattern, text),
        |found: MatchView| found.group_text(1),
    ).to_set()
}

fn find_names(pattern: &Pattern, text: &str) -> (r: Names)
    ensures
        r@ == names_found(pattern@, text@),
{
    let found = pattern.find_all(text);
    let ghost all = views(found@);
    let ghost p = |found: MatchView| !commented_out(text@, found.start as int);
    let ghost f = |found: MatchView| found.group_text(1);
    let mut r = Names::new();
    let mut i: usize = 0;
    assert(mapped(keep(all.take(0), p), f).to_set() =~= Set::<Seq<char>>::empty());
    while i < found.len()
        invariant
            all == views(found@),
            forall|j: int| 0 <= j < found@.len() ==> (#[trigger] found@[j]).start <= text@.len(),
            p == (|found: MatchView| !commented_out(text@, found.start as int)),
            f == (|found: MatchView| found.group_text(1)),
            i <= found@.len(),
            r@ == mapped(keep(all.take(i as int), p), f).to_set(),
        decreases found@.len() - i,
    {
        let ghost before = mapped(keep(all.take(i as int), p), f);
        proof {
            take_step(all, i as int);
        }
        let start: usize = found[i].start;
        assert(found@[i as int].start <= text@.len());
        if !is_commented_out(text, start) {
            let name = found[i].group_text(1);
            proof {
                assert(mapped(keep(all.take(i as int + 1), p), f) =~= before.push(name@));
                crate::names::set_of_push(before, name@);
            }
            r.insert(name);
        }
        i += 1;
    }
    proof {
        take_all(all);
    }
    r
}

fn find_all_names(pattern: &Pattern, text: &str) -> (r: Names)
    ensures
        r@ == all_names_found(pattern@, text@),
{
    let found = pattern.find_all(text);
    let ghost all = mapped(views(found@), |found: MatchView| found.group_text(1));
    let mut r = Names::new();
    let mut i: usize = 0;
    assert(all.take(0).to_set() =~= Set::<Seq<char>>::empty());
    while i < found.len()
        invariant
            all == mapped(views(found@), |found: MatchView| found.group_text(1)),
            i <= found@.len(),
            r@ == all.take(i as int).to_set(),
        decreases found@.len() - i,
    {
        proof {
            take_step(all, i as int);
            crate::names::set_of_push(all.take(i as int), all[i as int]);
        }
        r.insert(found[i].group_text(1));
        i += 1;
    }
    proof {
        take_all(all);
    }
    r
}

/// What the functions of an inventory are told by.
pub struct InventoryPatterns {
    pub tests: Pattern,
    pub benches: Pattern,
    pub stress: Pattern,
}

/// Why the patterns cannot be used.
pub open spec fn patterns_fault() -> Option<Seq<char>> {
    match pattern_fault(TEST_PATTERN@) {
        Some(message) => Some(message),
        None => match pattern_fault(BENCH_PATTERN@) {
            Some(message) => Some(message),
            None => pattern_fault(STRESS_PATTERN@),
        },
    }
}

impl InventoryPatterns {
    pub fn new() -> (r: Result<InventoryPatterns, String>)
        ensures
            match r {
                Ok(patterns) => patterns.tests@ == TEST_PATTERN@ && patterns.benches@
                    == BENCH_PATTERN@ && patterns.stress@ == STRESS_PATTERN@
                    && patterns_fault() is None,
                Err(message) => patterns_fault() == Some(message@),
            },
    {
        let tests = match Pattern::new(TEST_PATTERN) {
            Ok(pattern) => pattern,
            Err(message) => {
                return Err(message);
            },
        };
        let benches = match Pattern::new(BENCH_PATTERN) {
            Ok(pattern) => pattern,
            Err(message) => {
                return Err(message);
            },
        };
        let stress = match Pattern::new(STRESS_PATTERN) {
            Ok(pattern) => pattern,
            Err(message) => {
                return Err(message);
            },
        };
        Ok(InventoryPatterns { tests, benches, stress })
    }
}

/// The names of functions by the files that they stand in.
pub struct Inventory {
    pub files: NameMap<Names>,
}

impl View for Inventory {
    type V = Map<Seq<char>, Set<Seq<char>>>;

    open spec fn view(&self) -> Map<Seq<char>, Set<Seq<char>>> {
        self.files@
    }
}

/// An inventory with the names of one more file, where there are any.
pub open spec fn with_file(
    files: Map<Seq<char>, Set<Seq<char>>>,
    path: Seq<char>,
    names: Set<Seq<char>>,
) -> Map<Seq<char>, Set<Seq<char>>> {
    if names.is_empty() {
        files
    } else {
        files.insert(path, names)
    }
}

impl Inventory {
    pub fn new() -> (r: Inventory)
        ensures
            r@ == Map::<Seq<char>, Set<Seq<char>>>::empty(),
    {
        Inventory { files: NameMap::new() }
    }

    fn add_names(&mut self, path: &str, names: Names)
        ensures
            final(self)@ == with_file(old(self)@, path@, names@),
    {
        if !names.is_empty() {
            self.files.insert(path.to_owned(), names);
        }
    }

    /// Adds the tests of a file.
    pub fn add_tests(&mut self, path: &str, text: &str, patterns: &InventoryPatterns)
        ensures
            final(self)@ == with_file(
                old(self)@,
                path@,
                names_found(patterns.tests@, text@),
            ),
    {
        let names = find_names(&patterns.tests, text);
        self.add_names(path, names);
    }

    /// Adds the benchmarks and stress tests of a file.
    pub fn add_benches(&mut self, path: &str, text: &str, patterns: &InventoryPatterns)
        ensures
            final(self)@ == with_file(
                old(self)@,
                path@,
                names_found(patterns.benches@, text@).union(
                    all_names_found(patterns.stress@, text@),
                ),
            ),
    {
        let mut names = find_names(&patterns.benches, text);
        let stress = find_all_names(&patterns.stress, text);
        names.insert_all(&stress);
        self.add_names(path, names);
    }
}

/// The lines of a file in an inventory.
pub open spec fn file_lines(file: Seq<char>, names: Set<Seq<char>>, label: Seq<char>) -> Seq<
    Seq<char>,
> {
    seq!["- `"@ + file + "`"@, "  - "@ + label + ":"@] + mapped(
        listed(names),
        |name: Seq<char>| "    - `"@ + name + "`"@,
    ) + seq![""@]
}

/// The lines of a part of an inventory.
pub open spec fn section_lines(files: Map<Seq<char>, Set<Seq<char>>>, label: Seq<char>) -> Seq<
    Seq<char>,
> {
    if files.dom().is_empty() {
        seq!["(none)"@, ""@]
    } else {
        flat(
            listed(files.dom()),
            |file: Seq<char>| file_lines(file, files[file], label),
        )
    }
}

fn push_file_lines(lines: &mut Vec<String>, file: &str, names: &Names, label: &str)
    ensures
        views(final(lines)@) == views(old(lines)@) + file_lines(file@, names@, label@),
{
    let ghost before = views(lines@);
    let mut title = "- `".to_owned();
    title.append(file);
    title.append("`");
    lines.push(title);
    let mut head = "  - ".to_owned();
    head.append(label);
    head.append(":");
    lines.push(head);
    let list = names.as_vec();
    let ghost all = views(list@);
    let ghost f = |name: Seq<char>| "    - `"@ + name + "`"@;
    let ghost start = views(lines@);
    let mut i: usize = 0;
    assert(start =~= start + mapped(all.take(0), f));
    while i < list.len()
        invariant
            all == views(list@),
            f == (|name: Seq<char>| "    - `"@ + name + "`"@),
            i <= list@.len(),
            views(lines@) == start + mapped(all.take(i as int), f),
        decreases list@.len() - i,
    {
        let mut line = "    - `".to_owned();
        line.append(list[i].as_str());
        line.append("`");
        assert(line@ == f(all[i as int]));
        lines.push(line);
        i += 1;
        assert(views(lines@) =~= start + mapped(all.take(i as int), f));
    }
    proof {
        take_all(all);
    }
    lines.push("".to_owned());
    assert(views(lines@) =~= before + file_lines(file@, names@, label@));
}

fn append_inventory_section(lines: &mut Vec<String>, inventory: &Inventory, label: &str)
    ensures
        views(final(lines)@) == views(old(lines)@) + section_lines(inventory@, label@),
{
    let ghost before = views(lines@);
    let files = inventory.files.names();
    if files.is_empty() {
        lines.push("(none)".to_owned());
        lines.push("".to_owned());
        assert(views(lines@) =~= before + section_lines(inventory@, label@));
        return ;
    }
    let list = files.as_vec();
    let ghost all = views(list@);
    let ghost map = inventory@;
    let ghost f = |file: Seq<char>| file_lines(file, map[file], label@);
    let mut i: usize = 0;
    assert(before =~= before + flat(all.take(0), f));
    while i < list.len()
        invariant
            map == inventory@,
            all == views(list@),
            all.to_set() == map.dom(),
            f == (|file: Seq<char>| file_lines(file, map[file], label@)),
            i <= list@.len(),
            views(lines@) == before + flat(all.take(i as int), f),
        decreases list@.len() - i,
    {
        proof {
            take_step(all, i as int);
            assert(all.contains(all[i as int]));
            assert(map.dom().contains(all[i as int]));
        }
        match inventory.files.get(list[i].as_str()) {
            Some(names) => {
                push_file_lines(lines, list[i].as_str(), names, label);
            },
            None => {},
        }
        i += 1;
        assert(views(lines@) =~= before + flat(all.take(i as int), f));
    }
    proof {
        take_all(all);
    }
}

/// The lines of an inventory.
pub open spec fn inventory_lines(
    src_tests: Map<Seq<char>, Set<Seq<char>>>,
    integration_tests: Map<Seq<char>, Set<Seq<char>>>,
    benches: Map<Seq<char>, Set<Seq<char>>>,
    generated_at: Seq<char>,
) -> Seq<Seq<char>> {
    seq![
        "# Test & Bench Inventory"@,
        ""@,
        "_Generated "@ + generated_at + " by `cntryl-tools generate-inventory`._"@,
        ""@,
        "Complete inventory of all test and benchmark functions across cntryl."@,
        ""@,
        "**Src Tests**"@,
        ""@,
    ] + section_lines(src_tests, "tests"@) + seq!["**Integration Tests (tests/)**"@, ""@]
        + section_lines(integration_tests, "tests"@) + seq![
        "**Benches & Stress (benches/)**"@,
        ""@,
    ] + section_lines(benches, "benches & stress"@)
}

/// An inventory in Markdown.
pub fn render_markdown(
    src_tests: &Inventory,
    integration_tests: &Inventory,
    benches: &Inventory,
    generated_at: &str,
) -> (r: String)
    ensures
        r@ == joined(
            inventory_lines(src_tests@, integration_tests@, benches@, generated_at@),
            "\n"@,
        ),
{
    let mut lines: Vec<String> = Vec::new();
    lines.push("# Test & Bench Inventory".to_owned());
    lines.push("".to_owned());
    let mut generated = "_Generated ".to_owned();
    generated.append(generated_at);
    generated.append(" by `cntryl-tools generate-inventory`._");
    lines.push(generated);
    lines.push("".to_owned());
    lines.push("Complete inventory of all test and benchmark functions across cntryl.".to_owned());
    lines.push("".to_owned());
    lines.push("**Src Tests**".to_owned());
    lines.push("".to_owned());
    append_inventory_section(&mut lines, src_tests, "tests");
    lines.push("**Integration Tests (tests/)**".to_owned());
    lines.push("".to_owned());
    append_inventory_section(&mut lines, integration_tests, "tests");
    lines.push("**Benches & Stress (benches/)**".to_owned());
    lines.push("".to_owned());
    append_inventory_section(&mut lines, benches, "benches & stress");
    assert(views(lines@) =~= inventory_lines(
        src_tests@,
        integration_tests@,
        benches@,
        generated_at@,
    ));
    join(&lines, "\n")
}

/// How many names some files of an inventory have together.
pub open spec fn names_in(files: Map<Seq<char>, Set<Seq<char>>>, paths: Seq<Seq<char>>) -> nat
    decreases paths.len(),
{
    if paths.len() == 0 {
        0
    } else {
        names_in(files, paths.drop_last()) + files[paths.last()].len()
    }
}

/// A number, or the largest that fits where it does not.
pub open spec fn saturated(n: nat) -> u64 {
    if n <= u64::MAX {
        n as u64
    } else {
        u64::MAX
    }
}

fn count_names(inventory: &Inventory) -> (r: u64)
    ensures
        r == saturated(names_in(inventory@, listed(inventory@.dom()))),
{
    let files = inventory.files.names();
    let list = files.as_vec();
    let ghost map = inventory@;
    let ghost all = views(list@);
    let mut total: u64 = 0;
    let mut i: usize = 0;
    while i < list.len()
        invariant
            map == inventory@,
            all == views(list@),
            all.to_set() == map.dom(),
            i <= list@.len(),
            total == saturated(names_in(map, all.take(i as int))),
        decreases list@.len() - i,
    {
        proof {
            take_step(all, i as int);
            assert(all.contains(all[i as int]));
            assert(map.dom().contains(all[i as int]));
        }
        match inventory.files.get(list[i].as_str()) {
            Some(names) => {
                total = total.saturating_add(names.len() as u64);
            },
            None => {},
        }
        i += 1;
    }
    proof {
        take_all(all);
    }
    total
}

/// The line that tells how much was found.
pub open spec fn found_text(files: Map<Seq<char>, Set<Seq<char>>>, what: Seq<char>) -> Seq<char> {
    "Found "@ + decimal(saturated(names_in(files, listed(files.dom()))) as nat) + " "@ + what
        + " in "@ + decimal(files.dom().len()) + " files"@
}

/// The line that tells how much was found.
pub fn found_line(inventory: &Inventory, what: &str) -> (r: String)
    ensures
        r@ == found_text(inventory@, what@),
{
    let mut out = "Found ".to_owned();
    out.append(number(count_names(inventory)).as_str());
    out.append(" ");
    out.append(what);
    out.append(" in ");
    out.append(number(inventory.files.names().len() as u64).as_str());
    out.append(" files");
    out
}

/// A file is in an inventory only with names in it.
pub open spec fn without_empty_files(files: Map<Seq<char>, Set<Seq<char>>>) -> bool {
    forall|path: Seq<char>| #[trigger] files.contains_key(path) ==> !files[path].is_empty()
}

/// An inventory starts without empty files, and no file that is added brings one.
pub proof fn files_have_names(
    files: Map<Seq<char>, Set<Seq<char>>>,
    path: Seq<char>,
    names: Set<Seq<char>>,
)
    requires
        without_empty_files(files),
    ensures
        without_empty_files(with_file(files, path, names)),
        without_empty_files(Map::empty()),
{
}

} // verus!
