//! What an expression mentions and calls, and what a `let` tells.

use vstd::prelude::*;

use super::config::configured_matches;
use super::facts::{
    always_true, bound_by, bound_by_all, calls_in, calls_in_all, clock_call, facts_of,
    fixed_duration_argument, local_observer, names_in, names_in_all, panics, panics_any,
    random_call, reflexive, self_comparison, sleep_call, unconditional_success,
};
use super::model::{HygieneFactView, HygieneKind, Section, SourceSpan};
use super::syntax::{Kind, Tree};
use super::visitor::{visited, visited_call, source_name, ContextView, Facts};
use super::walk_laws::{after_call_facts, call_adds, function_call_adds};
use crate::text::{after_last, joined};

verus! {

/// Whether a path is one plain name that a local value can have: `self`, or a name that
/// starts with a small letter or an underscore.
pub open spec fn names_a_value(t: Tree, name: Seq<char>) -> bool {
    &&& t.kind == Kind::Path
    &&& t.words =~= seq![name]
    &&& !t.flag
    &&& name == "self"@ || (name.len() > 0 && (('a' <= name[0] && name[0] <= 'z') || name[0]
        == '_'))
}

proof fn names_of_all(ts: Seq<Tree>, name: Seq<char>)
    ensures
        names_in_all(ts).contains(name) <==> exists|i: int|
            0 <= i < ts.len() && names_in(#[trigger] ts[i]).contains(name),
    decreases ts.len(),
{
    if ts.len() > 0 {
        let rest = ts.drop_last();
        names_of_all(rest, name);
        assert forall|i: int| 0 <= i < rest.len() implies #[trigger] rest[i] == ts[i] by {}
        if names_in_all(rest).contains(name) {
            let i = choose|i: int|
                0 <= i < rest.len() && names_in(#[trigger] rest[i]).contains(name);
            assert(names_in(ts[i]).contains(name));
        }
        if exists|i: int| 0 <= i < ts.len() && names_in(#[trigger] ts[i]).contains(name) {
            let i = choose|i: int| 0 <= i < ts.len() && names_in(#[trigger] ts[i]).contains(name);
            if i < rest.len() {
                assert(names_in(rest[i]).contains(name));
            }
        }
    }
}

proof fn calls_of_all(ts: Seq<Tree>, name: Seq<char>)
    ensures
        calls_in_all(ts).contains(name) <==> exists|i: int|
            0 <= i < ts.len() && calls_in(#[trigger] ts[i]).contains(name),
    decreases ts.len(),
{
    if ts.len() > 0 {
        let rest = ts.drop_last();
        calls_of_all(rest, name);
        assert forall|i: int| 0 <= i < rest.len() implies #[trigger] rest[i] == ts[i] by {}
        if calls_in_all(rest).contains(name) {
            let i = choose|i: int|
                0 <= i < rest.len() && calls_in(#[trigger] rest[i]).contains(name);
            assert(calls_in(ts[i]).contains(name));
        }
        if exists|i: int| 0 <= i < ts.len() && calls_in(#[trigger] ts[i]).contains(name) {
            let i = choose|i: int| 0 <= i < ts.len() && calls_in(#[trigger] ts[i]).contains(name);
            if i < rest.len() {
                assert(calls_in(rest[i]).contains(name));
            }
        }
    }
}

/// An expression that is no macro mentions the value that it names and what its parts
/// mention; `matches!` mentions what its first argument does.
pub proof fn expressions_mention_what_their_parts_do(t: Tree, name: Seq<char>)
    ensures
        t.kind != Kind::Macro ==> (names_in(t).contains(name) <==> names_a_value(t, name) || (
        exists|i: int|
            0 <= i < t.attributes.len() && names_in(#[trigger] t.attributes[i]).contains(name)) || (
        exists|i: int|
            0 <= i < t.children.len() && names_in(#[trigger] t.children[i]).contains(name))),
        t.kind == Kind::Macro && t.words =~= seq!["matches"@] && t.arguments is Some
            && t.arguments->0.len() > 0 ==> names_in(t) == names_in(t.arguments->0[0]),
{
    names_of_all(t.attributes, name);
    names_of_all(t.children, name);
    if t.kind == Kind::Macro && t.words =~= seq!["matches"@] {
        single_name("matches"@);
    }
}

proof fn single_name(name: Seq<char>)
    requires
        name == "matches"@,
    ensures
        after_last(joined(seq![name], "::"@), "::"@) == name,
{
    reveal_strlit("matches");
    reveal_strlit("::");
    assert(joined(seq![name], "::"@) == name);
    let end = name.len() - "::"@.len();
    crate::text::find_back_found(name, "::"@, end);
    assert forall|i: int| 0 <= i < name.len() implies #[trigger] name[i] != ':' by {}
    if let Some(i) = crate::text::find_back(name, "::"@, end) {
        crate::text_laws::standing(name, "::"@, i);
        assert(name.subrange(i, i + 2)[0] == name[i]);
        assert("::"@[0] == ':');
    }
}

/// An expression that is no macro calls what it is a call of, by its path or its method, and
/// what its parts call.
pub proof fn expressions_call_what_their_parts_do(t: Tree, name: Seq<char>)
    ensures
        t.kind != Kind::Macro ==> (calls_in(t).contains(name) <==> (t.kind == Kind::Call
            && t.children.len() > 0 && t.children[0].kind == Kind::Path && name == joined(
            t.children[0].words,
            "::"@,
        )) || (t.kind == Kind::MethodCall && t.words.len() > 0 && name == t.words[0]) || (t.kind
            == Kind::MethodCall && t.words.len() == 0 && name.len() == 0) || (exists|i: int|
            0 <= i < t.attributes.len() && calls_in(#[trigger] t.attributes[i]).contains(name)) || (
        exists|i: int|
            0 <= i < t.children.len() && calls_in(#[trigger] t.children[i]).contains(name))),
{
    calls_of_all(t.attributes, name);
    calls_of_all(t.children, name);
    assert(t.kind == Kind::MethodCall && t.words.len() == 0 && name.len() == 0 ==> name
        =~= Seq::empty());
}

/// A pattern binds the name that it is, and what its parts bind.
pub proof fn patterns_bind_what_their_parts_do(t: Tree, name: Seq<char>)
    ensures
        t.kind == Kind::PatIdent || t.kind == Kind::PatTuple || t.kind == Kind::PatTupleStruct
            || t.kind == Kind::PatStruct || t.kind == Kind::PatField || t.kind
            == Kind::PatReference || t.kind == Kind::PatSlice || t.kind == Kind::PatType || t.kind
            == Kind::PatParen ==> (bound_by(t).contains(name) <==> (t.kind == Kind::PatIdent
            && t.words.len() > 0 && name == t.words[0]) || exists|i: int|
            0 <= i < t.children.len() && bound_by(#[trigger] t.children[i]).contains(name)),
        t.kind == Kind::PatWild || t.kind == Kind::Path ==> !bound_by(t).contains(name),
{
    bindings_of_all(t.children, name);
}

proof fn bindings_of_all(ts: Seq<Tree>, name: Seq<char>)
    ensures
        bound_by_all(ts).contains(name) <==> exists|i: int|
            0 <= i < ts.len() && bound_by(#[trigger] ts[i]).contains(name),
    decreases ts.len(),
{
    if ts.len() > 0 {
        let rest = ts.drop_last();
        bindings_of_all(rest, name);
        assert forall|i: int| 0 <= i < rest.len() implies #[trigger] rest[i] == ts[i] by {}
        if bound_by_all(rest).contains(name) {
            let i = choose|i: int|
                0 <= i < rest.len() && bound_by(#[trigger] rest[i]).contains(name);
            assert(bound_by(ts[i]).contains(name));
        }
        if exists|i: int| 0 <= i < ts.len() && bound_by(#[trigger] ts[i]).contains(name) {
            let i = choose|i: int| 0 <= i < ts.len() && bound_by(#[trigger] ts[i]).contains(name);
            if i < rest.len() {
                assert(bound_by(rest[i]).contains(name));
            }
        }
    }
}

/// A piece of syntax panics exactly where it is `panic!` or `unreachable!` or one of its parts
/// panics.
pub proof fn panics_are_panicking_macros(t: Tree)
    ensures
        panics(t) <==> {
            ||| t.kind == Kind::Macro && (after_last(joined(t.words, "::"@), "::"@) == "panic"@
                || after_last(joined(t.words, "::"@), "::"@) == "unreachable"@)
            ||| exists|i: int| 0 <= i < t.attributes.len() && panics(#[trigger] t.attributes[i])
            ||| exists|i: int| 0 <= i < t.children.len() && panics(#[trigger] t.children[i])
        },
{
    some_panics(t.attributes);
    some_panics(t.children);
}

proof fn some_panics(ts: Seq<Tree>)
    ensures
        panics_any(ts) <==> exists|i: int| 0 <= i < ts.len() && panics(#[trigger] ts[i]),
    decreases ts.len(),
{
    if ts.len() > 0 {
        let rest = ts.drop_last();
        some_panics(rest);
        assert forall|i: int| 0 <= i < rest.len() implies #[trigger] rest[i] == ts[i] by {}
        if panics_any(rest) {
            let i = choose|i: int| 0 <= i < rest.len() && panics(#[trigger] rest[i]);
            assert(panics(ts[i]));
        }
        if exists|i: int| 0 <= i < ts.len() && panics(#[trigger] ts[i]) {
            let i = choose|i: int| 0 <= i < ts.len() && panics(#[trigger] ts[i]);
            if i < rest.len() {
                assert(panics(rest[i]));
            }
        }
    }
}

/// Whether a value is a literal, perhaps in parentheses or behind references.
pub open spec fn is_a_constant(t: Tree) -> bool
    decreases t,
{
    match t.kind {
        Kind::StrLiteral | Kind::IntLiteral | Kind::BoolLiteral | Kind::OtherLiteral => true,
        Kind::Group | Kind::Paren | Kind::Reference => t.children.len() > 0 && is_a_constant(
            t.children[0],
        ),
        _ => false,
    }
}

/// Whether a condition holds, where `holds` tells it of every expression that is not made of
/// truth values, `!`, `&&`, `||` and comparisons of a constant with itself.
pub open spec fn evaluates(t: Tree, holds: spec_fn(Tree) -> bool) -> bool
    decreases t,
{
    match t.kind {
        Kind::BoolLiteral => t.flag,
        Kind::Group | Kind::Paren => if t.children.len() > 0 {
            evaluates(t.children[0], holds)
        } else {
            holds(t)
        },
        Kind::Unary => if t.words =~= seq!["!"@] && t.children.len() == 1 {
            !evaluates(t.children[0], holds)
        } else {
            holds(t)
        },
        Kind::Binary => if t.children.len() == 2 {
            if t.words =~= seq!["||"@] {
                evaluates(t.children[0], holds) || evaluates(t.children[1], holds)
            } else if t.words =~= seq!["&&"@] {
                evaluates(t.children[0], holds) && evaluates(t.children[1], holds)
            } else if t.words =~= seq!["=="@] && t.children[0].text == t.children[1].text
                && is_a_constant(t.children[0]) && is_a_constant(t.children[1]) {
                true
            } else {
                holds(t)
            }
        } else {
            holds(t)
        },
        _ => holds(t),
    }
}

/// Whether every operator in a condition has its operands and nothing more.
pub open spec fn is_well_made(t: Tree) -> bool
    decreases t,
{
    &&& t.kind == Kind::Binary ==> t.children.len() == 2 && t.words.len() == 1
    &&& t.kind == Kind::Unary ==> t.children.len() == 1 && t.words.len() == 1
    &&& forall|i: int| 0 <= i < t.children.len() ==> is_well_made(#[trigger] t.children[i])
}

pub(crate) proof fn constants_equal_themselves(t: Tree)
    ensures
        reflexive(t) == is_a_constant(t),
    decreases t,
{
    if t.children.len() > 0 {
        constants_equal_themselves(t.children[0]);
    }
}

/// A condition that is told to hold whatever the program does holds whatever is true of the
/// expressions in it.
pub proof fn conditions_told_true_are_true(t: Tree, holds: spec_fn(Tree) -> bool)
    requires
        is_well_made(t),
    ensures
        always_true(t) ==> evaluates(t, holds),
        self_comparison(t) ==> evaluates(t, holds),
    decreases t,
{
    reveal_strlit("||");
    reveal_strlit("&&");
    reveal_strlit("==");
    reveal_with_fuel(evaluates, 2);
    assert("||"@[0] == '|' && "&&"@[0] == '&' && "=="@[0] == '=');
    if t.children.len() > 0 {
        assert(is_well_made(t.children[0]));
        conditions_told_true_are_true(t.children[0], holds);
        constants_equal_themselves(t.children[0]);
    }
    if t.children.len() > 1 {
        assert(is_well_made(t.children[1]));
        conditions_told_true_are_true(t.children[1], holds);
        constants_equal_themselves(t.children[1]);
    }
    if t.kind == Kind::Binary || t.kind == Kind::Unary {
        assert(t.words =~= seq![t.words[0]]);
    }
}

/// The truth values, `!false`, a comparison of a constant with itself and what `&&`, `||` and
/// parentheses make of such conditions are told to hold.
pub proof fn plain_truths_are_told(t: Tree)
    requires
        is_well_made(t),
    ensures
        t.kind == Kind::BoolLiteral ==> always_true(t) == t.flag,
        t.kind == Kind::Unary && t.words[0] == "!"@ && t.children[0].kind == Kind::BoolLiteral
            ==> always_true(t) == !t.children[0].flag,
        t.kind == Kind::Binary && t.words[0] == "||"@ ==> always_true(t) == (always_true(
            t.children[0],
        ) || always_true(t.children[1])),
        t.kind == Kind::Binary && t.words[0] == "&&"@ ==> always_true(t) == (always_true(
            t.children[0],
        ) && always_true(t.children[1])),
        t.kind == Kind::Binary && t.words[0] == "=="@ ==> always_true(t) == (is_a_constant(
            t.children[0],
        ) && is_a_constant(t.children[1]) && t.children[0].text == t.children[1].text),
        t.kind == Kind::Paren && t.children.len() > 0 ==> always_true(t) == always_true(
            t.children[0],
        ),
{
    reveal_strlit("||");
    reveal_strlit("&&");
    reveal_strlit("==");
    assert("||"@[0] == '|' && "&&"@[0] == '&' && "=="@[0] == '=');
    if t.kind == Kind::Binary {
        constants_equal_themselves(t.children[0]);
        constants_equal_themselves(t.children[1]);
    }
}

/// A returned value is plainly a success where it is `Ok(..)`, `ExitCode::SUCCESS` or `()`,
/// perhaps in parentheses.
pub proof fn plain_successes(t: Tree)
    ensures
        t.kind == Kind::Call ==> unconditional_success(t) == (t.children.len() > 0
            && t.children[0].kind == Kind::Path && after_last(
            joined(t.children[0].words, "::"@),
            "::"@,
        ) == "Ok"@),
        t.kind == Kind::Path ==> unconditional_success(t) == "ExitCode::SUCCESS"@.is_suffix_of(
            joined(t.words, "::"@),
        ),
        t.kind == Kind::Tuple ==> unconditional_success(t) == (t.children.len() == 0),
        t.kind == Kind::Paren && t.children.len() > 0 ==> unconditional_success(t)
            == unconditional_success(t.children[0]),
        t.kind == Kind::MethodCall || t.kind == Kind::Match || t.kind == Kind::If || t.kind
            == Kind::Try || t.kind == Kind::MacroExpr || t.kind == Kind::Await || t.kind
            == Kind::BlockExpr ==> !unconditional_success(t),
{
    if t.kind == Kind::Path {
        let name = joined(t.words, "::"@);
        let end = "ExitCode::SUCCESS"@;
        if unconditional_success(t) {
            assert(name.subrange(name.len() - end.len(), name.len() as int) =~= end);
        }
    }
}

/// Whether a use of this kind is among the facts after the first `n`.
pub open spec fn uses_after(facts: Seq<HygieneFactView>, n: nat, kind: HygieneKind) -> bool {
    exists|k: int| n <= k < facts.len() && (#[trigger] facts[k]).kind == kind
}

/// Whether the first argument of a call is a number, or a duration made of a number.
pub open spec fn takes_a_fixed_time(t: Tree) -> bool {
    t.children.len() > 1 && (t.children[1].kind == Kind::IntLiteral || (t.children[1].kind
        == Kind::Call && t.children[1].children.len() > 1 && t.children[1].children[0].kind
        == Kind::Path && t.children[1].children[1].kind == Kind::IntLiteral && {
        let made_by = after_last(joined(t.children[1].children[0].words, "::"@), "::"@);
        made_by == "from_secs"@ || made_by == "from_millis"@ || made_by == "from_micros"@ || made_by
            == "from_nanos"@
    }))
}

/// A call of a function is told as a fixed sleep, a read of the clock, a random number or a
/// change of the environment exactly where what it stands for is such a function and the
/// policy does not control it. Paused time makes the sleep and the clock of `tokio` harmless.
pub proof fn uncontrolled_calls_are_told(c: ContextView, s: Facts, t: Tree, name: Seq<char>)
    ensures
        s.hygiene.is_prefix_of(s.with_hygiene_call(c, name, t).hygiene),
        s.with_hygiene_call(c, name, t).oracles == s.oracles,
        s.with_hygiene_call(c, name, t).gaps == s.gaps,
        s.with_hygiene_call(c, name, t).calls == s.calls,
        uses_after(
            s.with_hygiene_call(c, name, t).hygiene,
            s.hygiene.len(),
            HygieneKind::FixedSleep,
        ) <==> (name == "std::thread::sleep"@ || (name == "tokio::time::sleep"@ && !s.virtual_time)
            || name == "async_std::task::sleep"@) && takes_a_fixed_time(t) && !configured_matches(
            c.policy.controlled_time_functions,
            name,
        ),
        uses_after(
            s.with_hygiene_call(c, name, t).hygiene,
            s.hygiene.len(),
            HygieneKind::UncontrolledClock,
        ) <==> (name == "std::time::SystemTime::now"@ || name == "std::time::Instant::now"@ || (name
            == "tokio::time::Instant::now"@ && !s.virtual_time) || name == "chrono::Utc::now"@
            || name == "chrono::Local::now"@) && !configured_matches(
            c.policy.controlled_time_functions,
            name,
        ),
        uses_after(
            s.with_hygiene_call(c, name, t).hygiene,
            s.hygiene.len(),
            HygieneKind::UncontrolledRandom,
        ) <==> (name == "rand::random"@ || name == "rand::thread_rng"@ || name == "rand::rng"@
            || name == "rand::rngs::StdRng::from_entropy"@ || name
            == "rand::rngs::SmallRng::from_entropy"@) && !configured_matches(
            c.policy.controlled_random_functions,
            name,
        ),
        uses_after(
            s.with_hygiene_call(c, name, t).hygiene,
            s.hygiene.len(),
            HygieneKind::ProcessEnvironment,
        ) <==> (name == "std::env::set_var"@ || name == "std::env::remove_var"@ || name
            == "std::env::set_current_dir"@) && !configured_matches(
            c.policy.controlled_environment_functions,
            name,
        ),
        forall|k: int|
            s.hygiene.len() <= k < s.with_hygiene_call(c, name, t).hygiene.len() ==> {
                let fact = #[trigger] s.with_hygiene_call(c, name, t).hygiene[k];
                fact.call == name && fact.span == t.span && fact.in_oracle == s.inside_oracle
            },
{
    reveal_strlit("std::thread::sleep");
    reveal_strlit("tokio::time::sleep");
    reveal_strlit("async_std::task::sleep");
    reveal_strlit("tokio::time::Instant::now");
    reveal_strlit("std::time::SystemTime::now");
    reveal_strlit("std::time::Instant::now");
    reveal_strlit("chrono::Utc::now");
    reveal_strlit("chrono::Local::now");
    assert("std::thread::sleep"@[0] == 's' && "tokio::time::sleep"@[0] == 't');
    assert("async_std::task::sleep"@[0] == 'a' && "tokio::time::Instant::now"@[0] == 't');
    assert("std::time::SystemTime::now"@[0] == 's' && "std::time::Instant::now"@[0] == 's');
    assert("chrono::Utc::now"@[0] == 'c' && "chrono::Local::now"@[0] == 'c');
    let n = s.hygiene.len();
    let slept = if sleep_call(name) && !(s.virtual_time && name == "tokio::time::sleep"@)
        && !configured_matches(c.policy.controlled_time_functions, name)
        && fixed_duration_argument(t) {
        s.with_hygiene(c, HygieneKind::FixedSleep, name, t.span)
    } else {
        s
    };
    let timed = if clock_call(name) && !(s.virtual_time && name == "tokio::time::Instant::now"@)
        && !configured_matches(c.policy.controlled_time_functions, name) {
        slept.with_hygiene(c, HygieneKind::UncontrolledClock, name, t.span)
    } else {
        slept
    };
    let drawn = if random_call(name) && !configured_matches(
        c.policy.controlled_random_functions,
        name,
    ) {
        timed.with_hygiene(c, HygieneKind::UncontrolledRandom, name, t.span)
    } else {
        timed
    };
    let all = s.with_hygiene_call(c, name, t).hygiene;
    if slept.hygiene.len() > n {
        assert(all[n as int].kind == HygieneKind::FixedSleep);
    }
    if timed.hygiene.len() > slept.hygiene.len() {
        assert(all[slept.hygiene.len() as int].kind == HygieneKind::UncontrolledClock);
    }
    if drawn.hygiene.len() > timed.hygiene.len() {
        assert(all[timed.hygiene.len() as int].kind == HygieneKind::UncontrolledRandom);
    }
    if all.len() > drawn.hygiene.len() {
        assert(all[drawn.hygiene.len() as int].kind == HygieneKind::ProcessEnvironment);
    }
}

/// What is told of a call is told of what its name stands for at its place, and stays told.
pub proof fn calls_are_told_by_what_they_stand_for(
    c: ContextView,
    s: Facts,
    t: Tree,
    kind: HygieneKind,
)
    requires
        t.kind == Kind::Call,
        s.imported(source_name(t)) != "tokio::time::pause"@,
        s.imported(source_name(t)) != "tokio::time::resume"@,
    ensures
        uses_after(
            s.with_hygiene_call(c, s.imported(source_name(t)), t).hygiene,
            s.hygiene.len(),
            kind,
        ) ==> uses_after(visited(c, s, t).hygiene, s.hygiene.len(), kind),
{
    function_call_adds(c, s, t);
    let noted = s.with_function_call(c, t);
    call_adds(c, s, noted, t);
    after_call_facts(c, s, t);
    let name = s.imported(source_name(t));
    let told = s.with_hygiene_call(c, name, t).hygiene;
    assert(told =~= noted.hygiene);
    let all = visited(c, s, t).hygiene;
    assert(visited(c, s, t) == visited_call(c, s, noted, t));
    if uses_after(told, s.hygiene.len(), kind) {
        let k = choose|k: int|
            s.hygiene.len() <= k < told.len() && (#[trigger] told[k]).kind == kind;
        assert(all.subrange(0, told.len() as int)[k] == all[k]);
        assert(all[k].kind == kind);
    }
}

/// Whether an expression mentions one of some names.
pub open spec fn mentions_some(t: Tree, names: Set<Seq<char>>) -> bool {
    exists|name: Seq<char>| #[trigger] names_in(t).contains(name) && names.contains(name)
}

/// Whether an expression calls something.
pub open spec fn calls_something(t: Tree) -> bool {
    exists|name: Seq<char>| #[trigger] calls_in(t).contains(name)
}

pub(crate) proof fn mentioning_some(t: Tree, names: Set<Seq<char>>)
    ensures
        mentions_some(t, names) == !names_in(t).disjoint(names),
{
    if !names_in(t).disjoint(names) {
        let name = choose|name: Seq<char>| names_in(t).contains(name) && names.contains(name);
        assert(names_in(t).contains(name));
    }
}

pub(crate) proof fn calling_something(t: Tree)
    ensures
        calls_something(t) == !calls_in(t).is_empty(),
{
    if !calls_something(t) {
        assert(calls_in(t) =~= Set::empty());
    }
}

/// A `let` makes its names results of the Act exactly where its value is made of what the Act
/// gave, or, in the Act, calls something or looks at what the Act changed, or, in a test
/// without markers, calls something.
pub proof fn results_of_the_act(
    c: ContextView,
    s: Facts,
    section: Section,
    span: SourceSpan,
    bound: Set<Seq<char>>,
    init: Tree,
    name: Seq<char>,
)
    ensures
        s.with_initialized(c, section, span, bound, init).act_outputs.contains(name)
            <==> s.act_outputs.contains(name) || (bound.contains(name) && (mentions_some(
            init,
            s.act_outputs,
        ) || (section == Section::Act && (calls_something(init) || mentions_some(
            init,
            s.act_effects,
        ))) || (c.markers.len() == 0 && calls_something(init)))),
        s.with_initialized(c, section, span, bound, init).act_effects == s.act_effects,
        s.with_initialized(c, section, span, bound, init).oracles == s.oracles,
        s.with_initialized(c, section, span, bound, init).calls == s.calls,
        s.with_initialized(c, section, span, bound, init).hygiene == s.hygiene,
{
    reveal(Facts::with_initialized);
    mentioning_some(init, s.act_outputs);
    mentioning_some(init, s.act_effects);
    calling_something(init);
}

/// A `let` makes its names values of the clock exactly where its value reads an uncontrolled
/// clock or mentions a value of it.
pub proof fn values_of_the_clock(
    c: ContextView,
    s: Facts,
    section: Section,
    span: SourceSpan,
    bound: Set<Seq<char>>,
    init: Tree,
    name: Seq<char>,
)
    ensures
        s.with_initialized(c, section, span, bound, init).uncontrolled_clock_outputs.contains(name)
            <==> s.uncontrolled_clock_outputs.contains(name) || (bound.contains(name) && (
        mentions_some(init, s.uncontrolled_clock_outputs) || exists|call: Seq<char>| #[trigger]
            calls_in(init).contains(call) && clock_call(s.imported(call)))),
{
    reveal(Facts::with_initialized);
    mentioning_some(init, s.uncontrolled_clock_outputs);
    let facts = facts_of(init);
    let a = s.with_shadowing(c, span, bound).with_reference_aliases(bound, init).with_origin(
        bound,
        facts,
    );
    assert forall|call: Seq<char>| a.imported(call) == #[trigger] s.imported(call) by {}
    if exists|call: Seq<char>| #[trigger]
        calls_in(init).contains(call) && clock_call(s.imported(call)) {
        let call = choose|call: Seq<char>| #[trigger]
            calls_in(init).contains(call) && clock_call(s.imported(call));
        assert(facts.calls.contains(call) && clock_call(a.imported(call)));
    }
    if exists|call: Seq<char>| #[trigger]
        facts.calls.contains(call) && clock_call(a.imported(call)) {
        let call = choose|call: Seq<char>| #[trigger]
            facts.calls.contains(call) && clock_call(a.imported(call));
        assert(calls_in(init).contains(call) && clock_call(s.imported(call)));
    }
}

/// A call that only looks at a local value has one of these names.
pub proof fn plain_looks(call: Seq<char>)
    ensures
        local_observer(call) <==> {
            let name = after_last(call, "::"@);
            ||| name == "contains"@
            ||| name == "starts_with"@
            ||| name == "ends_with"@
            ||| name == "len"@
            ||| name == "is_empty"@
            ||| name == "is_ok"@
            ||| name == "is_err"@
            ||| name == "is_some"@
            ||| name == "is_none"@
        },
{
}

} // verus!
