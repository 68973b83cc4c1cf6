//! Regular expressions, by way of `regex`.

use vstd::prelude::*;

use crate::copies::option_view;
use crate::seqs::{take_all, take_step, views};

verus! {

broadcast use {vstd::std_specs::vec::group_vec_axioms, crate::seqs::group_views};

/// `regex::Regex`, which only `regex`'s own functions look into.
#[verifier::external_type_specification]
#[verifier::external_body]
pub struct ExRegex(regex::Regex);

/// The text that a regular expression was compiled from.
pub uninterp spec fn pattern_of(regex: regex::Regex) -> Seq<char>;

/// Why a text is no regular expression; nothing where it is one.
pub uninterp spec fn pattern_fault(pattern: Seq<char>) -> Option<Seq<char>>;

/// The part of a text that a regular expression matches first.
pub uninterp spec fn pattern_match(pattern: Seq<char>, text: Seq<char>) -> Option<Seq<char>>;

/// What a named group has in the first match of a regular expression in a text; nothing
/// where there is no match, no such group, or nothing in the group.
pub uninterp spec fn pattern_group(
    pattern: Seq<char>,
    text: Seq<char>,
    group: Seq<char>,
) -> Option<Seq<char>>;

/// Where a match of a regular expression starts, in characters, and what its groups
/// have, the whole match first.
pub struct Match {
    pub start: usize,
    pub groups: Vec<Option<String>>,
}

#[verifier::ext_equal]
pub struct MatchView {
    pub start: usize,
    pub groups: Seq<Option<Seq<char>>>,
}

impl View for Match {
    type V = MatchView;

    open spec fn view(&self) -> MatchView {
        MatchView {
            start: self.start,
            groups: Seq::new(self.groups@.len(), |i: int| option_view(self.groups@[i])),
        }
    }
}

/// The matches of a regular expression in a text, from left to right.
pub uninterp spec fn pattern_matches(pattern: Seq<char>, text: Seq<char>) -> Seq<MatchView>;

/// `regex::Regex::new`: whether a text compiles, and the message of the error where it
/// does not, depend on the text alone.
#[verifier::external_body]
fn compile(pattern: &str) -> (r: Result<regex::Regex, String>)
    ensures
        match r {
            Ok(regex) => (pattern_of(regex), pattern_fault(pattern@)) == (
                pattern@,
                None::<Seq<char>>,
            ),
            Err(message) => pattern_fault(pattern@) == Some(message@),
        },
{
    regex::Regex::new(pattern).map_err(|error| error.to_string())
}

/// `regex::Regex::is_match`: whether there is a match.
#[verifier::external_body]
fn matches_text(regex: &regex::Regex, text: &str) -> (r: bool)
    ensures
        r == (pattern_match(pattern_of(*regex), text@) is Some),
{
    regex.is_match(text)
}

/// `regex::Regex::find` and `Match::as_str`: the part of the text that is matched first.
#[verifier::external_body]
fn first_match(regex: &regex::Regex, text: &str) -> (r: Option<String>)
    ensures
        option_view(r) == pattern_match(pattern_of(*regex), text@),
{
    regex.find(text).map(|found| found.as_str().to_owned())
}

/// `regex::Regex::captures` and `Captures::name`: what a named group has in the first
/// match.
#[verifier::external_body]
fn first_group(regex: &regex::Regex, text: &str, group: &str) -> (r: Option<String>)
    ensures
        option_view(r) == pattern_group(pattern_of(*regex), text@, group@),
{
    regex.captures(text)?.name(group).map(|found| found.as_str().to_owned())
}

/// `regex::Regex::captures_iter`: the matches, with the text of their groups, depend on
/// the pattern and the text alone. Each match starts inside the text, or at its end.
#[verifier::external_body]
fn every_match(regex: &regex::Regex, text: &str) -> (r: Vec<Match>)
    ensures
        views(r@) == pattern_matches(pattern_of(*regex), text@),
        forall|i: int| 0 <= i < r@.len() ==> (#[trigger] r@[i]).start <= text@.len(),
{
    let groups = |found: &regex::Captures| {
        found.iter().map(|group| group.map(|part| part.as_str().to_owned())).collect()
    };
    let start = |found: &regex::Captures| found.get(0).map_or(0, |part| part.start());
    regex.captures_iter(text).map(|found| Match {
        start: text[..start(&found)].chars().count(),
        groups: groups(&found),
    }).collect()
}

/// A regular expression, told by the text that it was compiled from.
pub struct Pattern {
    regex: regex::Regex,
}

impl View for Pattern {
    type V = Seq<char>;

    closed spec fn view(&self) -> Seq<char> {
        pattern_of(self.regex)
    }
}

impl MatchView {
    /// What a group has.
    pub open spec fn group(self, index: int) -> Option<Seq<char>> {
        if 0 <= index < self.groups.len() {
            self.groups[index]
        } else {
            None
        }
    }

    /// What a group has; nothing counts as an empty text.
    pub open spec fn group_text(self, index: int) -> Seq<char> {
        match self.group(index) {
            Some(text) => text,
            None => ""@,
        }
    }
}

impl Match {
    pub fn group(&self, index: usize) -> (r: Option<&String>)
        ensures
            option_view(r) == self@.group(index as int),
    {
        if index < self.groups.len() {
            match &self.groups[index] {
                Some(text) => Some(text),
                None => None,
            }
        } else {
            None
        }
    }

    pub fn group_text(&self, index: usize) -> (r: String)
        ensures
            r@ == self@.group_text(index as int),
    {
        match self.group(index) {
            Some(text) => text.clone(),
            None => "".to_owned(),
        }
    }
}

impl Pattern {
    pub fn new(pattern: &str) -> (r: Result<Pattern, String>)
        ensures
            match r {
                Ok(compiled) => compiled@ == pattern@ && pattern_fault(pattern@) is None,
                Err(message) => pattern_fault(pattern@) == Some(message@),
            },
    {
        match compile(pattern) {
            Ok(regex) => Ok(Pattern { regex }),
            Err(message) => Err(message),
        }
    }

    pub fn is_match(&self, text: &str) -> (r: bool)
        ensures
            r == (pattern_match(self@, text@) is Some),
    {
        matches_text(&self.regex, text)
    }

    pub fn find(&self, text: &str) -> (r: Option<String>)
        ensures
            option_view(r) == pattern_match(self@, text@),
    {
        first_match(&self.regex, text)
    }

    /// The matches in a text, from left to right.
    pub fn find_all(&self, text: &str) -> (r: Vec<Match>)
        ensures
            views(r@) == pattern_matches(self@, text@),
            forall|i: int| 0 <= i < r@.len() ==> (#[trigger] r@[i]).start <= text@.len(),
    {
        every_match(&self.regex, text)
    }

    pub fn group(&self, text: &str, name: &str) -> (r: Option<String>)
        ensures
            option_view(r) == pattern_group(self@, text@, name@),
    {
        first_group(&self.regex, text, name)
    }
}

/// Why the first of some texts that is no regular expression is none.
pub open spec fn first_fault(patterns: Seq<Seq<char>>) -> Option<Seq<char>>
    decreases patterns.len(),
{
    if patterns.len() == 0 {
        None
    } else {
        match first_fault(patterns.drop_last()) {
            Some(message) => Some(message),
            None => pattern_fault(patterns.last()),
        }
    }
}

/// Compiles all of some regular expressions.
pub fn compile_all(patterns: &Vec<String>) -> (r: Result<Vec<Pattern>, String>)
    ensures
        match r {
            Ok(compiled) => views(compiled@) == views(patterns@) && first_fault(
                views(patterns@),
            ) is None,
            Err(message) => first_fault(views(patterns@)) == Some(message@),
        },
{
    let ghost all = views(patterns@);
    let mut out: Vec<Pattern> = Vec::new();
    let mut i: usize = 0;
    while i < patterns.len()
        invariant
            all == views(patterns@),
            i <= patterns@.len(),
            views(out@) == all.take(i as int),
            first_fault(all.take(i as int)) is None,
        decreases patterns@.len() - i,
    {
        proof {
            take_step(all, i as int);
        }
        match Pattern::new(patterns[i].as_str()) {
            Ok(pattern) => out.push(pattern),
            Err(message) => {
                proof {
                    fault_stays(all, i as int + 1);
                }
                return Err(message);
            },
        }
        i += 1;
    }
    proof {
        take_all(all);
    }
    Ok(out)
}

/// A fault among the first texts is the first fault of all.
proof fn fault_stays(patterns: Seq<Seq<char>>, n: int)
    requires
        0 <= n <= patterns.len(),
        first_fault(patterns.take(n)) is Some,
    ensures
        first_fault(patterns) == first_fault(patterns.take(n)),
    decreases patterns.len(),
{
    if n == patterns.len() {
        take_all(patterns);
    } else {
        assert(patterns.drop_last().take(n) =~= patterns.take(n));
        fault_stays(patterns.drop_last(), n);
    }
}

} // verus!
