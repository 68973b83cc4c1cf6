//! The counts of a report: that the gaps of a test name it, and that the tests that were
//! analyzed in full and in part are all tests.

use vstd::prelude::*;

use super::aliases::{item_aliases, with_parent};
use super::config::TestPolicyView;
use super::laws::in_flat;
use super::model::{
    AnalysisGap, AnalysisGapView, OperationalErrorView, OracleFactView, ReportStatus, Section,
    SourceSpan, TestCaseView, ValidationReportView,
};
use super::parse::parsed;
use super::report::exit_code_of;
use super::rules::{identity_of, intent_gaps, intent_gaps_of, ByGap};
use super::rust::{
    act_causality_gaps, analyzed, closing_gaps, context_of, effect_gaps, gathered, indirect_gap,
    later_act_gaps, markerless_causality_gaps, markerless_phase_gaps, name_of, receiver_gap,
    shared_gap, tests_among, tests_in,
};
use super::syntax::{Kind, Tree};
use super::visitor::{
    visited, visited_all, visited_arm, visited_assign, visited_block, visited_branch, visited_call,
    visited_closure, visited_for_loop, visited_if, visited_local, visited_macro, visited_parts,
    visited_statement, visited_then, visited_while, ContextView, Facts,
};
use super::{
    all_gaps, expired_report, finding_keys, gap_keys, has_timeout, reports, tests_of_source,
    ByGapLine, SessionView, TestKey,
};
use crate::order::sorted_keeps_values;
use crate::seqs::{every, flat, keep, mapped};

verus! {

/// Whether gaps are about the test of a context.
pub open spec fn about_test(c: ContextView, gaps: Seq<AnalysisGapView>) -> bool {
    forall|i: int|
        0 <= i < gaps.len() ==> (#[trigger] gaps[i]).test == c.identity && gaps[i].location.path
            == c.path
}

proof fn items_keep_gaps(s: Facts, statements: Seq<Tree>)
    ensures
        s.with_items(statements).gaps == s.gaps,
    decreases statements.len(),
{
    if statements.len() > 0 {
        items_keep_gaps(s, statements.drop_last());
    }
}

proof fn initialized_names_test(
    c: ContextView,
    s: Facts,
    section: Section,
    span: SourceSpan,
    bound: Set<Seq<char>>,
    init: Tree,
)
    requires
        about_test(c, s.gaps),
    ensures
        about_test(c, s.with_initialized(c, section, span, bound, init).gaps),
{
    reveal(Facts::with_initialized);
    let facts = super::facts::facts_of(init);
    let a = s.with_shadowing(c, span, bound);
    assert(about_test(c, a.gaps));
    let b = a.with_reference_aliases(bound, init);
    assert(b.gaps == a.gaps);
    let d = b.with_origin(bound, facts).with_clock(bound, facts);
    assert(d.gaps == a.gaps);
    let e = d.with_computation_gap(c, section, init);
    assert(about_test(c, e.gaps));
    assert(d.with_act_value(c, section, bound, init).gaps == e.gaps);
}

proof fn assignment_names_test(
    c: ContextView,
    s: Facts,
    section: Section,
    left: Tree,
    right: Tree,
)
    requires
        about_test(c, s.gaps),
    ensures
        about_test(c, s.with_assignment(c, section, left, right).gaps),
{
    reveal(Facts::with_assignment);
    assert(about_test(c, s.with_computation_gap(c, section, right).gaps));
}

proof fn pieces_name_test(c: ContextView, s: Facts, t: Tree, u: Tree)
    requires
        about_test(c, s.gaps),
    ensures
        about_test(c, s.with_loop_pattern(c, t, u).gaps),
        about_test(c, s.with_compound_assignment(c, t).gaps),
        about_test(c, s.with_match_oracle(c, t).gaps),
        about_test(c, s.with_if_oracle(c, t).gaps),
        about_test(c, s.with_condition_pattern(c, t).gaps),
        about_test(c, s.with_format_gap(c, t).gaps),
        about_test(c, s.with_unknown_macro(c, t).gaps),
        about_test(c, s.with_try(c, t).gaps),
        about_test(c, s.with_return(c, t).gaps),
        about_test(c, s.with_tail(c, t).gaps),
{
    reveal(Facts::with_loop_pattern);
    reveal(Facts::with_compound_assignment);
    reveal(Facts::with_match_oracle);
    reveal(Facts::with_if_oracle);
    reveal(Facts::with_condition_pattern);
    reveal(Facts::with_format_gap);
    reveal(Facts::with_unknown_macro);
    reveal(Facts::with_try);
    reveal(Facts::with_return);
}

proof fn assertion_names_test(c: ContextView, s: Facts, t: Tree)
    requires
        about_test(c, s.gaps),
    ensures
        about_test(c, s.with_assertion(c, t).gaps),
{
    reveal(Facts::with_assertion);
}

proof fn calls_name_test(c: ContextView, s: Facts, t: Tree)
    requires
        about_test(c, s.gaps),
    ensures
        about_test(c, s.with_function_call(c, t).gaps),
        about_test(c, s.with_method_call(c, t).gaps),
{
    reveal(Facts::with_function_call);
    reveal(Facts::with_method_call);
}

/// Every gap that a visit adds is about the test that is visited.
proof fn visit_names_test(c: ContextView, s: Facts, t: Tree)
    requires
        about_test(c, s.gaps),
    ensures
        about_test(c, visited(c, s, t).gaps),
    decreases t, 2nat,
{
    match t.kind {
        Kind::Block => {
            items_keep_gaps(s, t.children);
            visits_name_test(c, s.with_items(t.children), t.children);
            assert(visited(c, s, t) == visited_block(c, s, t));
        },
        Kind::Statement => {
            let noted = Facts {
                section_statements: s.section_statements.plus_one(c.section(t.span)),
                ..s
            };
            parts_name_test(c, noted, t);
            assert(visited(c, s, t) == visited_statement(c, s, t));
        },
        Kind::Local => local_names_test(c, s, t),
        Kind::ForLoop => for_names_test(c, s, t),
        Kind::Arm => {
            parts_name_test(c, s.with_bound(super::visitor::local_names(t)), t);
            assert(visited(c, s, t) == visited_arm(c, s, t));
        },
        Kind::Assign => assign_names_test(c, s, t),
        Kind::Binary => {
            pieces_name_test(c, s, t, t);
            parts_name_test(c, s.with_compound_assignment(c, t), t);
        },
        Kind::Match => {
            pieces_name_test(c, s, t, t);
            branch_names_test(c, s, s.with_match_oracle(c, t), t);
        },
        Kind::If => if_names_test(c, s, t),
        Kind::Closure => {
            let start = Facts { conditional: true, ..s }.with_bound(
                super::visitor::closure_names(t, t.inputs as int),
            );
            parts_name_test(c, start, t);
            assert(visited(c, s, t) == visited_closure(c, s, t));
        },
        Kind::Async | Kind::Loop => branch_names_test(c, s, s, t),
        Kind::While => while_names_test(c, s, t),
        Kind::Call => {
            calls_name_test(c, s, t);
            parts_name_test(c, s.with_function_call(c, t), t);
            assert(visited(c, s, t) == visited_call(c, s, s.with_function_call(c, t), t));
        },
        Kind::MethodCall => {
            calls_name_test(c, s, t);
            parts_name_test(c, s.with_method_call(c, t), t);
            assert(visited(c, s, t) == visited_call(c, s, s.with_method_call(c, t), t));
        },
        Kind::Macro => macro_names_test(c, s, t),
        Kind::Try => {
            pieces_name_test(c, s, t, t);
            parts_name_test(c, s.with_try(c, t), t);
        },
        Kind::Return => {
            pieces_name_test(c, s, t, t);
            parts_name_test(c, s.with_return(c, t), t);
        },
        _ => parts_name_test(c, s, t),
    }
}

proof fn visits_name_test(c: ContextView, s: Facts, ts: Seq<Tree>)
    requires
        about_test(c, s.gaps),
    ensures
        about_test(c, visited_all(c, s, ts).gaps),
    decreases ts, 0nat,
{
    if ts.len() > 0 {
        visits_name_test(c, s, ts.drop_last());
        visit_names_test(c, visited_all(c, s, ts.drop_last()), ts.last());
    }
}

proof fn parts_name_test(c: ContextView, s: Facts, t: Tree)
    requires
        about_test(c, s.gaps),
    ensures
        about_test(c, visited_parts(c, s, t).gaps),
    decreases t, 0nat,
{
    visits_name_test(c, s, t.attributes);
    visits_name_test(c, visited_all(c, s, t.attributes), t.children);
}

proof fn branch_names_test(c: ContextView, s: Facts, noted: Facts, t: Tree)
    requires
        about_test(c, noted.gaps),
    ensures
        about_test(c, visited_branch(c, s, noted, t).gaps),
    decreases t, 1nat,
{
    parts_name_test(c, Facts { conditional: true, ..noted }, t);
}

proof fn local_names_test(c: ContextView, s: Facts, t: Tree)
    requires
        about_test(c, s.gaps),
    ensures
        about_test(c, visited_local(c, s, t).gaps),
    decreases t, 1nat,
{
    let bound = super::visitor::local_names(t);
    let known = if t.flag && t.children.len() > 1 {
        initialized_names_test(c, s, c.section(t.span), t.span, bound, t.children[1]);
        s.with_initialized(c, c.section(t.span), t.span, bound, t.children[1])
    } else {
        s
    };
    parts_name_test(c, Facts { current_binding_identifiers: bound, ..known }, t);
}

proof fn for_names_test(c: ContextView, s: Facts, t: Tree)
    requires
        about_test(c, s.gaps),
    ensures
        about_test(c, visited_for_loop(c, s, t).gaps),
    decreases t, 1nat,
{
    if t.children.len() > 2 {
        pieces_name_test(c, s, t.children[0], t.children[1]);
        let start = Facts {
            conditional: true,
            ..s.with_loop_pattern(c, t.children[0], t.children[1])
        };
        visit_names_test(c, start, t.children[1]);
        let headed = visited(c, start, t.children[1]);
        visit_names_test(
            c,
            headed.with_bound(super::facts::bound_by(t.children[0])),
            t.children[2],
        );
    }
}

proof fn assign_names_test(c: ContextView, s: Facts, t: Tree)
    requires
        about_test(c, s.gaps),
    ensures
        about_test(c, visited_assign(c, s, t).gaps),
    decreases t, 1nat,
{
    if t.children.len() > 1 {
        assignment_names_test(c, s, c.section(t.span), t.children[0], t.children[1]);
        let known = Facts {
            current_binding_identifiers: super::facts::names_in(t.children[0]),
            ..s.with_assignment(c, c.section(t.span), t.children[0], t.children[1])
        };
        parts_name_test(c, known, t);
    }
}

proof fn then_names_test(c: ContextView, s: Facts, t: Tree)
    requires
        about_test(c, s.gaps),
    ensures
        about_test(c, visited_then(c, s, t).gaps),
    decreases t, 0nat,
{
    if t.children.len() > 1 {
        visit_names_test(c, s, t.children[0]);
        let tested = visited(c, s, t.children[0]);
        visit_names_test(
            c,
            tested.with_bound(super::visitor::condition_names(t.children[0])),
            t.children[1],
        );
    }
}

proof fn if_names_test(c: ContextView, s: Facts, t: Tree)
    requires
        about_test(c, s.gaps),
    ensures
        about_test(c, visited_if(c, s, t).gaps),
    decreases t, 1nat,
{
    if t.children.len() > 1 {
        pieces_name_test(c, s, t, t);
        pieces_name_test(c, s.with_if_oracle(c, t), t.children[0], t);
        let start = Facts {
            conditional: true,
            ..s.with_if_oracle(c, t).with_condition_pattern(c, t.children[0])
        };
        then_names_test(c, start, t);
        if t.children.len() > 2 {
            visit_names_test(c, visited_then(c, start, t), t.children[2]);
        }
    }
}

proof fn while_names_test(c: ContextView, s: Facts, t: Tree)
    requires
        about_test(c, s.gaps),
    ensures
        about_test(c, visited_while(c, s, t).gaps),
    decreases t, 1nat,
{
    if t.children.len() > 1 {
        let start = Facts { conditional: true, ..s };
        visit_names_test(c, start, t.children[0]);
        let tested = visited(c, start, t.children[0]);
        visit_names_test(
            c,
            tested.with_bound(super::visitor::condition_names(t.children[0])),
            t.children[1],
        );
    }
}

proof fn macro_names_test(c: ContextView, s: Facts, t: Tree)
    requires
        about_test(c, s.gaps),
    ensures
        about_test(c, visited_macro(c, s, t).gaps),
    decreases t, 1nat,
{
    pieces_name_test(c, s, t, t);
    let noted = s.with_format_gap(c, t);
    assertion_names_test(c, noted, t);
    pieces_name_test(c, noted, t, t);
    let start = Facts { inside_oracle: true, ..noted.with_assertion(c, t) };
    match t.arguments {
        Some(list) => visits_name_test(c, start, list),
        None => {},
    }
    visits_name_test(c, noted.with_unknown_macro(c, t), t.children);
}

proof fn gathering_names_test(c: ContextView, t: Tree, aliases: Map<Seq<char>, Seq<char>>)
    ensures
        about_test(c, gathered(c, t, aliases).gaps),
{
    let start = super::visitor::no_facts_yet(
        super::rust::parameter_names(t),
        super::rust::starts_paused(t, aliases),
        super::rust::with_statement_imports(super::rust::statements_of(t), aliases),
    );
    let walked = if t.children.len() > 1 {
        visit_names_test(c, start, t.children[1]);
        visited(c, start, t.children[1])
    } else {
        start
    };
    match super::rust::tail_of(t) {
        Some(tail) => pieces_name_test(c, walked, tail, tail),
        None => {},
    }
}

/// Gaps that come from values come about the test if each value's do.
proof fn flat_names_test<A>(c: ContextView, s: Seq<A>, f: spec_fn(A) -> Seq<AnalysisGapView>)
    requires
        forall|x: A| about_test(c, #[trigger] f(x)),
    ensures
        about_test(c, flat(s, f)),
    decreases s.len(),
{
    if s.len() > 0 {
        flat_names_test(c, s.drop_last(), f);
        assert(about_test(c, f(s.last())));
    }
}

proof fn closing_names_test(c: ContextView, f: Facts)
    ensures
        about_test(c, closing_gaps(c, f)),
{
    flat_names_test(
        c,
        f.oracles,
        |o: OracleFactView| indirect_gap(c, f, o),
    );
    flat_names_test(
        c,
        f.oracles,
        |o: OracleFactView| receiver_gap(c, f, o),
    );
    flat_names_test(c, f.oracles, |o: OracleFactView| shared_gap(c, f, o));
    assert(about_test(c, effect_gaps(c, f)));
    assert(about_test(c, markerless_causality_gaps(c, f)));
    assert(about_test(c, markerless_phase_gaps(c, f)));
    assert(about_test(c, act_causality_gaps(c, f)));
    assert(about_test(c, later_act_gaps(c, f)));
}

/// Whether every gap of a test names the test and its file.
pub open spec fn owns_gaps(test: TestCaseView) -> bool {
    forall|i: int|
        0 <= i < test.gaps.len() ==> (#[trigger] test.gaps[i]).test == identity_of(test)
            && test.gaps[i].location.path == test.path
}

/// Every gap in the analysis of a test names that test and its file.
pub proof fn gaps_name_their_test(
    path: Seq<char>,
    items: Seq<Tree>,
    modules: Seq<Seq<char>>,
    parent: Map<Seq<char>, Seq<char>>,
    lines: Seq<Seq<char>>,
    policy: TestPolicyView,
)
    ensures
        every(
            tests_in(path, items, modules, parent, lines, policy),
            |test: TestCaseView| owns_gaps(test),
        ),
    decreases items, 1nat,
{
    gaps_name_test_among(
        path,
        items,
        modules,
        with_parent(item_aliases(items), parent),
        lines,
        policy,
    );
}

proof fn gaps_name_test_among(
    path: Seq<char>,
    items: Seq<Tree>,
    modules: Seq<Seq<char>>,
    aliases: Map<Seq<char>, Seq<char>>,
    lines: Seq<Seq<char>>,
    policy: TestPolicyView,
)
    ensures
        every(
            tests_among(path, items, modules, aliases, lines, policy),
            |test: TestCaseView| owns_gaps(test),
        ),
    decreases items, 0nat,
{
    if items.len() > 0 {
        let last = items.last();
        gaps_name_test_among(path, items.drop_last(), modules, aliases, lines, policy);
        if last.kind == Kind::Module {
            gaps_name_their_test(
                path,
                last.children,
                modules.push(name_of(last)),
                aliases,
                lines,
                policy,
            );
        } else {
            let c = context_of(path, last, modules, lines, policy);
            let f = gathered(c, last, aliases);
            gathering_names_test(c, last, aliases);
            closing_names_test(c, f);
            assert(owns_gaps(analyzed(path, last, modules, aliases, lines, policy)));
        }
    }
}

/// What a session comes upon: a source file with its text, a file that cannot be read, or
/// the end of the time.
pub enum SessionEvent {
    Read { path: Seq<char>, source: Seq<char> },
    Unreadable { path: Seq<char>, error: Seq<char> },
    TimeOver { timeout: Option<u64> },
}

/// A session after some events.
pub open spec fn session_of(events: Seq<SessionEvent>, policy: TestPolicyView) -> SessionView
    decreases events.len(),
{
    if events.len() == 0 {
        SessionView { tests: seq![], processed_files: 0, errors: seq![] }
    } else {
        let rest = session_of(events.drop_last(), policy);
        match events.last() {
            SessionEvent::Read { path, source } => rest.after_source(path, source, policy),
            SessionEvent::Unreadable { path, error } => rest.after_read_failure(path, error),
            SessionEvent::TimeOver { timeout } => rest.after_timeout(timeout),
        }
    }
}

proof fn sessions_own_gaps(events: Seq<SessionEvent>, policy: TestPolicyView)
    ensures
        every(session_of(events, policy).tests, |test: TestCaseView| owns_gaps(test)),
    decreases events.len(),
{
    let p = |test: TestCaseView| owns_gaps(test);
    if events.len() > 0 {
        let rest = session_of(events.drop_last(), policy);
        sessions_own_gaps(events.drop_last(), policy);
        if let SessionEvent::Read { path, source } = events.last() {
            if let Ok(tree) = parsed(source) {
                let lines = crate::text::lines_of(source);
                gaps_name_their_test(path, tree.children, seq![], Map::empty(), lines, policy);
                let added = tests_of_source(path, source, policy);
                assert(every(added, p));
                let all = rest.tests + added;
                assert forall|i: int| 0 <= i < all.len() implies p(#[trigger] all[i]) by {
                    if i < rest.tests.len() {
                        assert(all[i] == rest.tests[i]);
                    } else {
                        assert(all[i] == added[i - rest.tests.len()]);
                    }
                }
            }
        }
    }
}

/// The turn of a file: what stands there, and whether the time is over before it and
/// behind it.
pub struct Turn {
    pub expired_before: bool,
    pub file: SourceFile,
    pub expired_behind: bool,
}

pub enum SourceFile {
    Readable { path: Seq<char>, source: Seq<char> },
    Unreadable { path: Seq<char>, error: Seq<char> },
}

/// What a session comes upon file by file: it stops at the end of the time, and at a file
/// that cannot be read or parsed.
pub open spec fn events_of(turns: Seq<Turn>, timeout: Option<u64>) -> Seq<SessionEvent>
    decreases turns.len(),
{
    if turns.len() == 0 {
        seq![]
    } else if turns[0].expired_before {
        seq![SessionEvent::TimeOver { timeout }]
    } else {
        match turns[0].file {
            SourceFile::Unreadable { path, error } => seq![
                SessionEvent::Unreadable { path, error },
            ],
            SourceFile::Readable { path, source } => seq![SessionEvent::Read { path, source }] + (
            if parsed(source) is Err {
                seq![]
            } else if turns[0].expired_behind {
                seq![SessionEvent::TimeOver { timeout }]
            } else {
                events_of(turns.skip(1), timeout)
            }),
        }
    }
}

/// How many files a session does not come to.
pub open spec fn not_reached(turns: Seq<Turn>) -> nat
    decreases turns.len(),
{
    if turns.len() == 0 {
        0
    } else if turns[0].expired_before {
        turns.len()
    } else {
        match turns[0].file {
            SourceFile::Unreadable { .. } => (turns.len() - 1) as nat,
            SourceFile::Readable { source, .. } => if parsed(source) is Err
                || turns[0].expired_behind {
                (turns.len() - 1) as nat
            } else {
                not_reached(turns.skip(1))
            },
        }
    }
}

/// Whether an error is that of a file that could not be read or parsed.
pub open spec fn is_file_error(error: OperationalErrorView) -> bool {
    error.code == "input.read-failed"@ || error.code == "input.parse-failed"@
}

/// The files that could not be read or parsed.
pub open spec fn file_errors(errors: Seq<OperationalErrorView>) -> nat {
    keep(errors, |e: OperationalErrorView| is_file_error(e)).len()
}

/// How many files among some events were read and parsed.
pub open spec fn files_read(events: Seq<SessionEvent>) -> nat
    decreases events.len(),
{
    if events.len() == 0 {
        0
    } else {
        files_read(events.skip(1)) + (if events[0] matches SessionEvent::Read { source, .. }
            && parsed(source) is Ok {
            1nat
        } else {
            0
        })
    }
}

/// How many files among some events could not be read or parsed.
pub open spec fn files_failed(events: Seq<SessionEvent>) -> nat
    decreases events.len(),
{
    if events.len() == 0 {
        0
    } else {
        files_failed(events.skip(1)) + (match events[0] {
            SessionEvent::Read { source, .. } => if parsed(source) is Ok {
                0nat
            } else {
                1
            },
            SessionEvent::Unreadable { .. } => 1,
            SessionEvent::TimeOver { .. } => 0,
        })
    }
}

proof fn one_event_more(events: Seq<SessionEvent>)
    requires
        events.len() > 0,
    ensures
        files_read(events) == files_read(events.drop_last()) + files_read(seq![events.last()]),
        files_failed(events) == files_failed(events.drop_last()) + files_failed(
            seq![events.last()],
        ),
        files_read(events) <= events.len(),
    decreases events.len(),
{
    reveal_with_fuel(files_read, 2);
    reveal_with_fuel(files_failed, 2);
    let single = seq![events.last()];
    assert(single.skip(1) =~= seq![]);
    if events.len() == 1 {
        assert(events =~= single);
        assert(events.drop_last() =~= seq![]);
    } else {
        let front = events.drop_last();
        one_event_more(events.skip(1));
        assert(events.skip(1).drop_last() =~= front.skip(1));
        assert(events.skip(1).last() == events.last());
        assert(front[0] == events[0]);
    }
}

proof fn sessions_count_files(events: Seq<SessionEvent>, policy: TestPolicyView)
    requires
        events.len() <= usize::MAX,
    ensures
        session_of(events, policy).processed_files == files_read(events),
        file_errors(session_of(events, policy).errors) == files_failed(events),
    decreases events.len(),
{
    reveal_with_fuel(files_read, 2);
    reveal_with_fuel(files_failed, 2);
    if events.len() > 0 {
        let last = events.last();
        let rest = session_of(events.drop_last(), policy);
        let session = session_of(events, policy);
        sessions_count_files(events.drop_last(), policy);
        one_event_more(events);
        let single = seq![last];
        assert(single.skip(1) =~= seq![]);
        assert(single[0] == last);
        reveal_strlit("input.read-failed");
        reveal_strlit("input.parse-failed");
        reveal_strlit("analysis.timeout");
        assert("analysis.timeout"@[0] == 'a');
        assert("input.read-failed"@[0] == 'i' && "input.parse-failed"@[0] == 'i');
        if session.errors != rest.errors {
            assert(session.errors.drop_last() =~= rest.errors);
        }
        if events.drop_last().len() > 0 {
            one_event_more(events.drop_last());
        }
    }
}

proof fn turns_are_counted(turns: Seq<Turn>, timeout: Option<u64>)
    ensures
        files_read(events_of(turns, timeout)) + files_failed(events_of(turns, timeout))
            + not_reached(turns) == turns.len(),
        files_failed(events_of(turns, timeout)) <= 1,
        events_of(turns, timeout).len() <= turns.len() + 1,
    decreases turns.len(),
{
    reveal_with_fuel(files_read, 3);
    reveal_with_fuel(files_failed, 3);
    let events = events_of(turns, timeout);
    if turns.len() > 0 {
        turns_are_counted(turns.skip(1), timeout);
        let over = seq![SessionEvent::TimeOver { timeout }];
        assert(over.skip(1) =~= seq![]);
        if events.len() > 0 {
            assert(events.skip(1) =~= (if turns[0].expired_before {
                seq![]
            } else {
                match turns[0].file {
                    SourceFile::Unreadable { .. } => seq![],
                    SourceFile::Readable { source, .. } => if parsed(source) is Err {
                        seq![]
                    } else if turns[0].expired_behind {
                        over
                    } else {
                        events_of(turns.skip(1), timeout)
                    },
                }
            }));
        }
    }
}

/// Every file given is read, or fails, or is not reached, whether or not the time ends in
/// between: the report tells of as many files as were read, at most one fails, and no more
/// tests are fully analyzed than there are.
pub proof fn files_add_up(
    report: ValidationReportView,
    turns: Seq<Turn>,
    policy: TestPolicyView,
    expired: bool,
    timeout: Option<u64>,
    version: Seq<char>,
)
    requires
        turns.len() < usize::MAX,
        reports(
            report,
            session_of(events_of(turns, timeout), policy),
            policy,
            expired,
            timeout,
            version,
        ),
    ensures
        report.summary.total_files + file_errors(
            session_of(events_of(turns, timeout), policy).errors,
        ) + not_reached(turns) == turns.len(),
        file_errors(session_of(events_of(turns, timeout), policy).errors) <= 1,
        report.summary.fully_analyzed_tests <= report.summary.total_tests,
{
    let events = events_of(turns, timeout);
    turns_are_counted(turns, timeout);
    sessions_count_files(events, policy);
    counts_add_up(report, events, policy, expired, timeout, version);
}

/// The end of the time takes nothing out of a report: its counts and its lists stay, and
/// it is incomplete.
pub proof fn expiry_keeps_counts(report: ValidationReportView, timeout: Option<u64>)
    ensures
        expired_report(report, timeout).summary == report.summary,
        expired_report(report, timeout).findings == report.findings,
        expired_report(report, timeout).analysis_gaps == report.analysis_gaps,
        expired_report(report, timeout).exemptions == report.exemptions,
        exit_code_of(expired_report(report, timeout)) == 2,
{
    if has_timeout(report.errors) {
        assert(report.errors.len() > 0);
    }
}

/// The file and the name of each test.
pub open spec fn test_keys(tests: Seq<TestCaseView>) -> Seq<TestKey> {
    mapped(tests, |test: TestCaseView| (test.path, test.qualified_name))
}

/// A gap of a report names one of its tests.
proof fn gap_of_one_test(tests: Seq<TestCaseView>, gap: AnalysisGapView)
    requires
        every(tests, |test: TestCaseView| owns_gaps(test)),
        all_gaps(tests).contains(gap),
    ensures
        test_keys(tests).contains((gap.location.path, gap.test.qualified_name)),
{
    let p = |test: TestCaseView| owns_gaps(test);
    let f = |t: TestCaseView| t.gaps;
    let g = |t: TestCaseView| intent_gaps_of(t);
    let analysis = flat(tests, f);
    let intent = crate::order::sorted::<AnalysisGap, ByGap>(intent_gaps(tests));
    let both = analysis + intent;
    sorted_keeps_values::<AnalysisGap, ByGapLine>(both, gap);
    let k = both.index_of(gap);
    assert(both[k] == gap);
    let i = if k < analysis.len() {
        assert(analysis[k] == gap);
        in_flat(tests, f, gap);
        let i = choose|i: int| 0 <= i < tests.len() && f(#[trigger] tests[i]).contains(gap);
        assert(p(tests[i]));
        let l = tests[i].gaps.index_of(gap);
        assert(tests[i].gaps[l] == gap);
        i
    } else {
        assert(intent[k - analysis.len()] == gap);
        sorted_keeps_values::<AnalysisGap, ByGap>(intent_gaps(tests), gap);
        in_flat(tests, g, gap);
        let i = choose|i: int| 0 <= i < tests.len() && g(#[trigger] tests[i]).contains(gap);
        let l = intent_gaps_of(tests[i]).index_of(gap);
        assert(intent_gaps_of(tests[i])[l] == gap);
        i
    };
    assert(test_keys(tests)[i] == (gap.location.path, gap.test.qualified_name));
}

/// No more tests have gaps than there are tests.
proof fn tests_with_gaps_are_tests(tests: Seq<TestCaseView>)
    requires
        every(tests, |test: TestCaseView| owns_gaps(test)),
    ensures
        gap_keys(all_gaps(tests)).to_set().len() <= tests.len(),
{
    let gaps = all_gaps(tests);
    let keys = gap_keys(gaps);
    let own = test_keys(tests);
    assert forall|key: TestKey| keys.to_set().contains(key) implies own.to_set().contains(key) by {
        let i = keys.index_of(key);
        assert(keys[i] == key);
        assert(gaps.contains(gaps[i]));
        gap_of_one_test(tests, gaps[i]);
    }
    vstd::seq_lib::seq_to_set_is_finite(own);
    vstd::set_lib::lemma_len_subset(keys.to_set(), own.to_set());
    own.lemma_cardinality_of_set();
}

/// In the report of a session the tests that were analyzed in full and in part are all
/// tests; findings, exemptions and tests with findings are as many as are listed; and the
/// report is incomplete exactly where it holds an error, which it does where no test was
/// found.
pub proof fn counts_add_up(
    report: ValidationReportView,
    events: Seq<SessionEvent>,
    policy: TestPolicyView,
    expired: bool,
    timeout: Option<u64>,
    version: Seq<char>,
)
    requires
        reports(report, session_of(events, policy), policy, expired, timeout, version),
    ensures
        report.summary.fully_analyzed_tests + report.summary.partially_analyzed_tests
            == report.summary.total_tests,
        report.summary.total_tests == session_of(events, policy).tests.len(),
        report.summary.findings == report.findings.len(),
        report.summary.applied_exemptions == report.exemptions.len(),
        report.summary.tests_with_findings == finding_keys(report.findings).to_set().len(),
        report.status == ReportStatus::Incomplete <==> report.errors.len() > 0,
        report.summary.total_tests == 0 ==> report.errors.len() > 0,
        exit_code_of(report) == 2 <==> report.errors.len() > 0,
{
    sessions_own_gaps(events, policy);
    tests_with_gaps_are_tests(session_of(events, policy).tests);
}

} // verus!
