//! What an inventory holds, told by the texts it is made of.

use vstd::prelude::*;

use super::{
    all_names_found, commented_out, file_lines, inventory_lines, line_start, names_found,
    section_lines, with_file,
};
use crate::names::listed;
use crate::patterns::{pattern_matches, MatchView};
use crate::repository_checks::laws::{finite_names_are_listed, group_text, same_group};
use crate::seqs::{flat, in_keep, keep, kept, mapped};
use crate::text::{find_back, find_back_found, trimmed};
use crate::text_laws::prefixes_and_suffixes;
use crate::validate_tests::laws::in_flat;

verus! {

/// Whether the line of a place starts with a comment: `from` is where the line begins, and
/// what stands between is, blanks aside, the start of a comment.
pub open spec fn stands_in_a_comment(text: Seq<char>, at: int, from: int) -> bool {
    &&& 0 <= from <= at
    &&& from > 0 ==> text[from - 1] == '\n'
    &&& forall|i: int| from <= i < at ==> #[trigger] text[i] != '\n'
    &&& {
        let before = trimmed(text.subrange(from, at));
        "//"@.is_prefix_of(before) || "/*"@.is_prefix_of(before)
    }
}

/// A place is commented out exactly where a comment starts its line before it.
pub proof fn comments_start_their_line(text: Seq<char>, at: int)
    requires
        0 <= at <= text.len(),
    ensures
        commented_out(text, at) <==> exists|from: int| #[trigger]
            stands_in_a_comment(text, at, from),
{
    let before = text.take(at);
    let feed = "\n"@;
    reveal_strlit("\n");
    reveal_strlit("//");
    reveal_strlit("///");
    assert(feed =~= seq!['\n']);
    find_back_found(before, feed, before.len() - 1);
    let start = line_start(text, at);
    let from = at - start.len();
    match find_back(before, feed, before.len() - 1) {
        Some(i) => {
            assert(before.subrange(i, i + 1)[0] == before[i]);
            assert(feed[0] == '\n');
            assert(from == i + 1);
        },
        None => {
            assert(from == 0);
        },
    }
    assert forall|j: int| from <= j < at implies #[trigger] text[j] != '\n' by {
        if text[j] == '\n' {
            assert(before.subrange(j, j + 1) =~= feed);
            assert(crate::text::matches_at(before, feed, j));
        }
    }
    assert(start =~= text.subrange(from, at));
    let prefix = trimmed(start);
    prefixes_and_suffixes(prefix, "//"@);
    prefixes_and_suffixes(prefix, "///"@);
    prefixes_and_suffixes(prefix, "/*"@);
    if "///"@.is_prefix_of(prefix) {
        assert(prefix.subrange(0, 3)[0] == '/' && prefix.subrange(0, 3)[1] == '/');
        assert(prefix.subrange(0, 2) =~= "//"@);
    }
    if commented_out(text, at) {
        assert(stands_in_a_comment(text, at, from));
    }
    if exists|other: int| #[trigger] stands_in_a_comment(text, at, other) {
        let other = choose|other: int| #[trigger] stands_in_a_comment(text, at, other);
        if other < from {
            assert(text[from - 1] == '\n');
        } else if from < other {
            assert(text[other - 1] == '\n');
        }
    }
}

/// The names found in a text are those that a match of the pattern has which is not
/// commented out.
pub proof fn found_names_are_not_commented_out(
    pattern: Seq<char>,
    text: Seq<char>,
    name: Seq<char>,
)
    ensures
        names_found(pattern, text).contains(name) <==> exists|k: int|
            0 <= k < pattern_matches(pattern, text).len() && !commented_out(
                text,
                (#[trigger] pattern_matches(pattern, text)[k]).start as int,
            ) && group_text(pattern_matches(pattern, text)[k], 1) == name,
        all_names_found(pattern, text).contains(name) <==> exists|k: int|
            0 <= k < pattern_matches(pattern, text).len() && group_text(
                #[trigger] pattern_matches(pattern, text)[k],
                1,
            ) == name,
        names_found(pattern, text).subset_of(all_names_found(pattern, text)),
{
    let all = pattern_matches(pattern, text);
    let p = |found: MatchView| !commented_out(text, found.start as int);
    let f = |found: MatchView| found.group_text(1);
    assert forall|k: int| 0 <= k < all.len() implies group_text(#[trigger] all[k], 1) == f(
        all[k],
    ) by {
        same_group(all[k], 1);
    }
    let some = keep(all, p);
    kept(all, p);
    let names = mapped(some, f);
    let every_name = mapped(all, f);
    if names.contains(name) {
        let i = names.index_of(name);
        assert(p(some[i]));
        let k = all.index_of(some[i]);
        assert(group_text(all[k], 1) == name);
    }
    if exists|k: int|
        0 <= k < all.len() && !commented_out(text, (#[trigger] all[k]).start as int) && group_text(
            all[k],
            1,
        ) == name {
        let k = choose|k: int|
            0 <= k < all.len() && !commented_out(text, (#[trigger] all[k]).start as int)
                && group_text(all[k], 1) == name;
        assert(all.contains(all[k]));
        in_keep(all, p, all[k]);
        let i = some.index_of(all[k]);
        assert(names[i] == name);
    }
    if every_name.contains(name) {
        let k = every_name.index_of(name);
        assert(group_text(all[k], 1) == name);
    }
    if exists|k: int| 0 <= k < all.len() && group_text(#[trigger] all[k], 1) == name {
        let k = choose|k: int| 0 <= k < all.len() && group_text(#[trigger] all[k], 1) == name;
        assert(every_name[k] == name);
    }
    assert forall|n: Seq<char>| names.contains(n) implies every_name.contains(n) by {
        let i = names.index_of(n);
        assert(all.contains(some[i]));
        let k = all.index_of(some[i]);
        assert(every_name[k] == n);
    }
}

/// A file is put into an inventory with its names where it has any, and no other file is
/// touched.
pub proof fn files_are_put_in_with_their_names(
    files: Map<Seq<char>, Set<Seq<char>>>,
    path: Seq<char>,
    names: Set<Seq<char>>,
)
    ensures
        !names.is_empty() ==> with_file(files, path, names).contains_key(path) && with_file(
            files,
            path,
            names,
        )[path] == names,
        names.is_empty() ==> with_file(files, path, names) == files,
        forall|other: Seq<char>|
            other != path ==> (#[trigger] with_file(files, path, names).contains_key(other)
                == files.contains_key(other)) && (files.contains_key(other) ==> with_file(
                files,
                path,
                names,
            )[other] == files[other]),
{
}

/// The lines of a part of an inventory are, for each file, its name, the label and the names
/// found in it, and an empty line; `(none)` where there is no file.
pub proof fn every_file_and_name_is_told(
    files: Map<Seq<char>, Set<Seq<char>>>,
    label: Seq<char>,
    line: Seq<char>,
)
    requires
        files.dom().finite(),
        forall|file: Seq<char>| #[trigger] files.contains_key(file) ==> files[file].finite(),
    ensures
        section_lines(files, label).contains(line) <==> {
            ||| files.dom().is_empty() && (line == "(none)"@ || line == ""@)
            ||| exists|file: Seq<char>| #[trigger]
                files.contains_key(file) && is_line_of(file, files[file], label, line)
        },
{
    let f = |file: Seq<char>| file_lines(file, files[file], label);
    let names = listed(files.dom());
    finite_names_are_listed(files.dom());
    if files.dom().is_empty() {
        let none = seq!["(none)"@, ""@];
        assert(none[0] == "(none)"@ && none[1] == ""@);
    } else {
        in_flat(names, f, line);
        if flat(names, f).contains(line) {
            let k = choose|k: int| 0 <= k < names.len() && f(#[trigger] names[k]).contains(line);
            assert(names.to_set().contains(names[k]));
            assert(files.contains_key(names[k]));
            lines_of_a_file(names[k], files[names[k]], label, line);
        }
        if exists|file: Seq<char>| #[trigger]
            files.contains_key(file) && is_line_of(file, files[file], label, line) {
            let file = choose|file: Seq<char>| #[trigger]
                files.contains_key(file) && is_line_of(file, files[file], label, line);
            lines_of_a_file(file, files[file], label, line);
            assert(names.to_set().contains(file));
            let k = names.index_of(file);
            assert(f(names[k]).contains(line));
        }
    }
}

/// Whether a line tells of a file: its name, the label, one of the names found in it, or
/// nothing.
pub open spec fn is_line_of(
    file: Seq<char>,
    names: Set<Seq<char>>,
    label: Seq<char>,
    line: Seq<char>,
) -> bool {
    ||| line == "- `"@ + file + "`"@
    ||| line == "  - "@ + label + ":"@
    ||| exists|name: Seq<char>| #[trigger] names.contains(name) && line == "    - `"@ + name + "`"@
    ||| line == ""@
}

proof fn lines_of_a_file(
    file: Seq<char>,
    names: Set<Seq<char>>,
    label: Seq<char>,
    line: Seq<char>,
)
    requires
        names.finite(),
    ensures
        file_lines(file, names, label).contains(line) == is_line_of(file, names, label, line),
{
    let all = file_lines(file, names, label);
    let own = listed(names);
    finite_names_are_listed(names);
    let n = own.len() as int;
    assert(all[0] == "- `"@ + file + "`"@);
    assert(all[1] == "  - "@ + label + ":"@);
    assert(all[n + 2] == ""@);
    assert forall|k: int| 0 <= k < n implies #[trigger] own[k] == own[k] && all[k + 2]
        == "    - `"@ + own[k] + "`"@ by {}
    if exists|name: Seq<char>| #[trigger] names.contains(name) && line == "    - `"@ + name + "`"@ {
        let name = choose|name: Seq<char>| #[trigger]
            names.contains(name) && line == "    - `"@ + name + "`"@;
        assert(own.to_set().contains(name));
        let k = own.index_of(name);
        assert(own[k] == name);
        assert(all[k + 2] == line);
    }
    if all.contains(line) {
        let k = all.index_of(line);
        if 2 <= k < n + 2 {
            assert(own[k - 2] == own[k - 2]);
            assert(own.to_set().contains(own[k - 2]));
            assert(names.contains(own[k - 2]));
        }
    }
}

/// An inventory tells of the tests of the sources, of the integration tests and of the
/// benchmarks, each in its own part.
pub proof fn every_part_is_told(
    src_tests: Map<Seq<char>, Set<Seq<char>>>,
    integration_tests: Map<Seq<char>, Set<Seq<char>>>,
    benches: Map<Seq<char>, Set<Seq<char>>>,
    generated_at: Seq<char>,
    line: Seq<char>,
)
    ensures
        section_lines(src_tests, "tests"@).contains(line) || section_lines(
            integration_tests,
            "tests"@,
        ).contains(line) || section_lines(benches, "benches & stress"@).contains(line)
            ==> inventory_lines(src_tests, integration_tests, benches, generated_at).contains(line),
        inventory_lines(src_tests, integration_tests, benches, generated_at).len()
            == 12 + section_lines(src_tests, "tests"@).len() + section_lines(
            integration_tests,
            "tests"@,
        ).len() + section_lines(benches, "benches & stress"@).len(),
{
    let all = inventory_lines(src_tests, integration_tests, benches, generated_at);
    let a = section_lines(src_tests, "tests"@);
    let b = section_lines(integration_tests, "tests"@);
    let c = section_lines(benches, "benches & stress"@);
    if a.contains(line) {
        assert(all[8 + a.index_of(line)] == line);
    }
    if b.contains(line) {
        assert(all[10 + a.len() + b.index_of(line)] == line);
    }
    if c.contains(line) {
        assert(all[12 + a.len() + b.len() + c.index_of(line)] == line);
    }
}

} // verus!
