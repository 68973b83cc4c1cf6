//! Modules: how many lines of production code they have.

use vstd::prelude::*;

use super::ModuleSizeConfig;
use crate::copies::option_view;
use crate::paths::{rust_stem, stem_of_rust_file};
use crate::seqs::{take_all, take_step, views};
use crate::text::{
    chars, contains, contains_text, count_char, decimal, has_prefix, lines, lines_fit, lines_of,
    number, occurrences, pad, padded, same, starts_with, total_len, total_len_of_take, trim,
    trimmed,
};

verus! {

broadcast use {vstd::std_specs::vec::group_vec_axioms, crate::seqs::group_views};

/// What is known of a module after some of its lines: how many lines of production code
/// there were, whether a test module is being skipped, and how deep its braces are.
#[verifier::ext_equal]
pub struct LineState {
    pub count: nat,
    pub skipping: bool,
    pub depth: int,
}

/// After one more line.
pub open spec fn after_line(state: LineState, line: Seq<char>) -> LineState {
    let text = trimmed(line);
    if !state.skipping && contains_text(text, "#[cfg(test)]"@) {
        LineState { skipping: true, ..state }
    } else if state.skipping {
        let depth = state.depth + occurrences(line, '{') - occurrences(line, '}');
        LineState {
            skipping: !(depth <= 0 && (occurrences(line, '{') > 0 || occurrences(line, ';') > 0)),
            depth,
            ..state
        }
    } else if text.len() > 0 && !has_prefix(text, "//"@) {
        LineState { count: state.count + 1, ..state }
    } else {
        state
    }
}

/// After some lines.
pub open spec fn after_lines(lines: Seq<Seq<char>>) -> LineState
    decreases lines.len(),
{
    if lines.len() == 0 {
        LineState { count: 0, skipping: false, depth: 0 }
    } else {
        after_line(after_lines(lines.drop_last()), lines.last())
    }
}

/// How many lines of a module are neither empty, nor comments, nor those of a test module.
pub open spec fn production_count(text: Seq<char>) -> nat {
    after_lines(lines_of(text)).count
}

proof fn occurrences_fit(s: Seq<char>, c: char, d: char)
    requires
        c != d,
    ensures
        occurrences(s, c) + occurrences(s, d) <= s.len(),
    decreases s.len(),
{
    if s.len() > 0 {
        occurrences_fit(s.drop_last(), c, d);
    }
}

/// How many lines of a module are production code.
pub fn production_lines(text: &str) -> (r: usize)
    ensures
        r == production_count(text@),
{
    let size: usize = chars(text).len();
    let all_lines = lines(text);
    let ghost all = views(all_lines@);
    proof {
        lines_fit(text@);
    }
    let mut count: usize = 0;
    let mut skipping: bool = false;
    let mut depth: i128 = 0;
    let mut i: usize = 0;
    while i < all_lines.len()
        invariant
            all == views(all_lines@),
            total_len(all) <= size,
            i <= all_lines@.len(),
            count <= i,
            -total_len(all.take(i as int)) <= depth <= total_len(all.take(i as int)),
            after_lines(all.take(i as int)) == (LineState {
                count: count as nat,
                skipping,
                depth: depth as int,
            }),
        decreases all_lines@.len() - i,
    {
        proof {
            take_step(all, i as int);
            total_len_of_take(all, i as int + 1);
            occurrences_fit(all[i as int], '{', '}');
        }
        let line = all_lines[i].as_str();
        let stripped = trim(line);
        if !skipping && contains(stripped.as_str(), "#[cfg(test)]") {
            skipping = true;
        } else if skipping {
            let opened: usize = count_char(line, '{');
            let closed: usize = count_char(line, '}');
            let ended: usize = count_char(line, ';');
            depth = depth + opened as i128 - closed as i128;
            if depth <= 0 && (opened > 0 || ended > 0) {
                skipping = false;
            }
        } else if chars(stripped.as_str()).len() > 0 && !starts_with(stripped.as_str(), "//") {
            count += 1;
        }
        i += 1;
    }
    proof {
        take_all(all);
    }
    count
}

fn listed_in(name: &str, list: &Vec<String>) -> (r: bool)
    ensures
        r == views(list@).contains(name@),
{
    let mut i: usize = 0;
    while i < list.len()
        invariant
            i <= list@.len(),
            forall|j: int| 0 <= j < i ==> #[trigger] views(list@)[j] != name@,
        decreases list@.len() - i,
    {
        if same(list[i].as_str(), name) {
            assert(views(list@)[i as int] == name@);
            return true;
        }
        i += 1;
    }
    false
}

/// A module with its size.
pub open spec fn size_text(count: usize, name: Seq<char>) -> Seq<char> {
    padded(decimal(count as nat), 5) + " "@ + name
}

fn show_size(count: usize, name: &str) -> (r: String)
    ensures
        r@ == size_text(count, name@),
{
    let mut out = pad(number(count as u64).as_str(), 5);
    out.append(" ");
    out.append(name);
    out
}

/// The line that tells of a large module.
pub open spec fn warning_of(count: usize, name: Seq<char>, config: &ModuleSizeConfig) -> Option<
    Seq<char>,
> {
    if count > config.warn_lines {
        Some(
            size_text(count, name) + (if views(config.allowlist@).contains(name) {
                " [allowlist]"@
            } else {
                ""@
            }),
        )
    } else {
        None
    }
}

/// The line that tells of a module that is too large.
pub open spec fn failure_of(count: usize, name: Seq<char>, config: &ModuleSizeConfig) -> Option<
    Seq<char>,
> {
    if count > config.max_lines && !views(config.allowlist@).contains(name) && !views(
        config.legacy_allowlist@,
    ).contains(name) {
        Some(size_text(count, name))
    } else {
        None
    }
}

/// What is said of a module.
pub struct ModuleReport {
    pub warning: Option<String>,
    pub failure: Option<String>,
}

/// Tells whether a module of a size is large or too large.
pub fn judge_size(count: usize, name: &str, config: &ModuleSizeConfig) -> (r: ModuleReport)
    ensures
        option_view(r.warning) == warning_of(count, name@, config),
        option_view(r.failure) == failure_of(count, name@, config),
{
    let allowed = listed_in(name, &config.allowlist);
    let warning = if count > config.warn_lines {
        let mut line = show_size(count, name);
        line.append(
            if allowed {
                " [allowlist]"
            } else {
                ""
            },
        );
        Some(line)
    } else {
        None
    };
    let failure = if count > config.max_lines && !allowed && !listed_in(
        name,
        &config.legacy_allowlist,
    ) {
        Some(show_size(count, name))
    } else {
        None
    };
    ModuleReport { warning, failure }
}

/// Tells whether a module with a text is large or too large.
pub fn check_module(name: &str, text: &str, config: &ModuleSizeConfig) -> (r: ModuleReport)
    ensures
        production_count(text@) <= usize::MAX,
        option_view(r.warning) == warning_of(production_count(text@) as usize, name@, config),
        option_view(r.failure) == failure_of(production_count(text@) as usize, name@, config),
{
    judge_size(production_lines(text), name, config)
}

/// Whether a file is a module that is checked.
pub open spec fn is_module(file_name: Seq<char>) -> bool {
    rust_stem(file_name) is Some && file_name != "tests.rs"@
}

pub fn is_checked_module(file_name: &str) -> (r: bool)
    ensures
        r == is_module(file_name@),
{
    stem_of_rust_file(file_name).is_some() && !same(
        file_name,
        "tests.rs",
    )
}

/// A module has no more lines of production code than lines.
pub proof fn production_lines_are_lines(lines: Seq<Seq<char>>)
    ensures
        after_lines(lines).count <= lines.len(),
    decreases lines.len(),
{
    if lines.len() > 0 {
        production_lines_are_lines(lines.drop_last());
    }
}

/// A module that is on one of the lists never fails, however large.
pub proof fn listed_modules_never_fail(count: usize, name: Seq<char>, config: &ModuleSizeConfig)
    requires
        views(config.allowlist@).contains(name) || views(config.legacy_allowlist@).contains(name),
    ensures
        failure_of(count, name, config) is None,
{
}

} // verus!
