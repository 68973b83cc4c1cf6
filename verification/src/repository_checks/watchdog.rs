//! Test suites, run test by test with a limit on the time of each.

use vstd::prelude::*;

use crate::copies::option_view;
use crate::seqs::{flat, keep, take_all, take_step, views};
use crate::text::{chars, contains, contains_text, ends_with, has_suffix, lines, lines_of, slice};

verus! {

broadcast use {vstd::std_specs::vec::group_vec_axioms, crate::seqs::group_views};

/// The exit code of a test that took too long.
pub const TIMEOUT_CODE: i32 = 124;

/// Whether a suite is named or all are wanted.
pub fn has_target(suite: &Option<String>, all: bool) -> (r: Result<(), String>)
    ensures
        if suite is Some || all {
            r is Ok
        } else {
            r matches Err(message) && message@ == "provide --suite <name> or --all"@
        },
{
    if suite.is_some() || all {
        Ok(())
    } else {
        Err("provide --suite <name> or --all".to_owned())
    }
}

/// The test that a line of a listing names, as a sequence of none or one.
pub open spec fn named_test(line: Seq<char>) -> Seq<Seq<char>> {
    if has_suffix(line, ": test"@) {
        seq![line.take(line.len() - 6)]
    } else {
        seq![]
    }
}

/// The full name of a test.
pub open spec fn full_name(suite: Seq<char>, test: Seq<char>) -> Seq<char> {
    suite + "::"@ + test
}

/// Whether a test is wanted: its full name has the pattern in it, where there is one.
pub open spec fn is_wanted(suite: Seq<char>, test: Seq<char>, pattern: Option<Seq<char>>) -> bool {
    match pattern {
        Some(text) => contains_text(full_name(suite, test), text),
        None => true,
    }
}

/// The tests of a suite's listing that are wanted.
pub open spec fn wanted_tests(
    suite: Seq<char>,
    listing: Seq<char>,
    pattern: Option<Seq<char>>,
) -> Seq<Seq<char>> {
    keep(
        flat(lines_of(listing), |line: Seq<char>| named_test(line)),
        |test: Seq<char>| is_wanted(suite, test, pattern),
    )
}

fn wants(suite: &str, test: &str, pattern: Option<&str>) -> (r: bool)
    ensures
        r == is_wanted(suite@, test@, option_view(pattern)),
{
    match pattern {
        Some(text) => {
            let mut name = suite.to_owned();
            name.append("::");
            name.append(test);
            contains(name.as_str(), text)
        },
        None => true,
    }
}

fn listed_tests(listing: &str) -> (r: Vec<String>)
    ensures
        views(r@) == flat(lines_of(listing@), |line: Seq<char>| named_test(line)),
{
    proof {
        reveal_strlit(": test");
    }
    let all_lines = lines(listing);
    let ghost all = views(all_lines@);
    let ghost f = |line: Seq<char>| named_test(line);
    let mut out: Vec<String> = Vec::new();
    let mut i: usize = 0;
    while i < all_lines.len()
        invariant
            ": test"@.len() == 6,
            all == views(all_lines@),
            f == (|line: Seq<char>| named_test(line)),
            i <= all_lines@.len(),
            views(out@) == flat(all.take(i as int), f),
        decreases all_lines@.len() - i,
    {
        proof {
            take_step(all, i as int);
        }
        let ghost before = views(out@);
        let line = all_lines[i].as_str();
        if ends_with(line, ": test") {
            let letters = chars(line);
            let end: usize = letters.len();
            let name = slice(letters.as_slice(), 0, end - 6);
            assert(name@ =~= line@.take(line@.len() - 6));
            out.push(name);
        }
        assert(views(out@) =~= before + f(all[i as int]));
        i += 1;
    }
    proof {
        take_all(all);
    }
    out
}

/// The tests of a suite's listing that are wanted.
pub fn select_tests(suite: &str, listing: &str, pattern: Option<&str>) -> (r: Vec<String>)
    ensures
        views(r@) == wanted_tests(suite@, listing@, option_view(pattern)),
{
    let tests = listed_tests(listing);
    let ghost all = views(tests@);
    let ghost p = |test: Seq<char>| is_wanted(suite@, test, option_view(pattern));
    let mut out: Vec<String> = Vec::new();
    let mut i: usize = 0;
    while i < tests.len()
        invariant
            all == views(tests@),
            p == (|test: Seq<char>| is_wanted(suite@, test, option_view(pattern))),
            i <= tests@.len(),
            views(out@) == keep(all.take(i as int), p),
        decreases tests@.len() - i,
    {
        proof {
            take_step(all, i as int);
        }
        if wants(suite, tests[i].as_str(), pattern) {
            out.push(tests[i].clone());
        }
        i += 1;
    }
    proof {
        take_all(all);
    }
    out
}

/// What to do with a test that was looked at.
#[derive(Debug, Clone, Copy, PartialEq, Eq, Structural)]
pub enum Step {
    /// The test has ended, with this code.
    Ended(i32),
    /// The test is to be stopped; its time is over.
    Stop,
    /// The test is to be looked at again later.
    Wait,
}

/// What to do with a test: `ended` tells whether it has ended, and with what code; what
/// has ended without one counts as failed.
pub open spec fn step_of(ended: Option<Option<i32>>, elapsed_ms: u64, timeout: u64) -> Step {
    match ended {
        Some(code) => Step::Ended(
            match code {
                Some(code) => code,
                None => 1,
            },
        ),
        None => if elapsed_ms >= timeout * 1_000 {
            Step::Stop
        } else {
            Step::Wait
        },
    }
}

/// Decides what to do with a test; the timeout is in seconds.
pub fn watch(ended: Option<Option<i32>>, elapsed_ms: u64, timeout: u64) -> (r: Step)
    ensures
        r == step_of(ended, elapsed_ms, timeout),
{
    match ended {
        Some(code) => Step::Ended(
            match code {
                Some(code) => code,
                None => 1,
            },
        ),
        None => {
            let over = match timeout.checked_mul(1_000) {
                Some(limit) => elapsed_ms >= limit,
                None => false,
            };
            if over {
                Step::Stop
            } else {
                Step::Wait
            }
        },
    }
}

/// The code that the watchdog stops with after a test, where it stops.
pub open spec fn stop_code(status: i32, continue_on_fail: bool) -> Option<i32> {
    if status == 0 || continue_on_fail {
        None
    } else if status == TIMEOUT_CODE {
        Some(TIMEOUT_CODE)
    } else {
        Some(2)
    }
}

/// The tests that were run so far.
#[derive(Debug, Clone, Copy, PartialEq, Eq, Structural)]
pub struct Watchdog {
    pub failed: bool,
}

impl Watchdog {
    pub fn new() -> (r: Watchdog)
        ensures
            !r.failed,
    {
        Watchdog { failed: false }
    }

    /// Notes how a test ended; gives the code to stop with, where to stop.
    pub fn note(&mut self, status: i32, continue_on_fail: bool) -> (r: Option<i32>)
        ensures
            final(self).failed == (old(self).failed || status != 0),
            r == stop_code(status, continue_on_fail),
    {
        if status == 0 {
            return None;
        }
        self.failed = true;
        if continue_on_fail {
            None
        } else if status == TIMEOUT_CODE {
            Some(TIMEOUT_CODE)
        } else {
            Some(2)
        }
    }

    /// The code that the watchdog ends with once all tests were run.
    pub fn exit_code(&self) -> (r: i32)
        ensures
            r == (if self.failed {
                2i32
            } else {
                0i32
            }),
    {
        if self.failed {
            2
        } else {
            0
        }
    }
}

/// The watchdog never stops after a test that passed, nor with code 0.
pub proof fn stops_only_on_failure(status: i32, continue_on_fail: bool)
    ensures
        stop_code(status, continue_on_fail) is Some ==> status != 0 && !continue_on_fail,
        stop_code(status, continue_on_fail) != Some(0i32),
{
}

} // verus!
