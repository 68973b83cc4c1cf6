//! What an expression mentions, calls and means, read off its syntax.

use vstd::prelude::*;

use super::model::OracleKind;
use super::syntax::{Kind, Node, Tree};
use crate::copies::{copy_option, option_view, Copied};
use crate::names::Names;
use crate::seqs::{take_all, take_step, views};
use crate::text::{
    after_last, char_is_whitespace, chars, ends_with, find, find_from, has_prefix, has_suffix,
    join, joined, last_part, same, starts_with, trim_start,
};

verus! {

broadcast use {
    vstd::std_specs::vec::group_vec_axioms,
    crate::seqs::group_views,
    crate::validate_tests::syntax::Node::tree_parts,
};

/// The name that path segments make.
pub open spec fn path_name_of(segments: Seq<Seq<char>>) -> Seq<char> {
    joined(segments, "::"@)
}

pub fn path_name(node: &Node) -> (r: String)
    ensures
        r@ == path_name_of(node@.words),
{
    join(&node.words, "::")
}

/// The last segment of the path of a node.
pub open spec fn final_name_of(segments: Seq<Seq<char>>) -> Seq<char> {
    after_last(path_name_of(segments), "::"@)
}

pub fn final_name(node: &Node) -> (r: String)
    ensures
        r@ == final_name_of(node@.words),
{
    last_part(path_name(node).as_str(), "::")
}

/// Whether a name can be that of a local value.
pub open spec fn local_name(value: Seq<char>) -> bool {
    value == "self"@ || (value.len() > 0 && ('a' <= value[0] <= 'z' || value[0] == '_'))
}

pub fn is_local_name(value: &str) -> (r: bool)
    ensures
        r == local_name(value@),
{
    if same(value, "self") {
        return true;
    }
    let all = chars(value);
    all.len() > 0 && (('a' <= all[0] && all[0] <= 'z') || all[0] == '_')
}

/// The local value that a path names.
pub open spec fn local_identifier_of(t: Tree) -> Option<Seq<char>> {
    if !t.flag && t.words.len() == 1 && local_name(t.words[0]) {
        Some(t.words[0])
    } else {
        None
    }
}

pub fn local_identifier(node: &Node) -> (r: Option<&String>)
    ensures
        option_view(r) == local_identifier_of(node@),
{
    if !node.flag && node.words.len() == 1 && is_local_name(node.words[0].as_str()) {
        Some(&node.words[0])
    } else {
        None
    }
}

/// The local names among some tokens.
pub open spec fn token_names(t: Tree) -> Set<Seq<char>>
    decreases t,
{
    match t.kind {
        Kind::TokenIdent => if t.words.len() > 0 && local_name(t.words[0]) {
            set![t.words[0]]
        } else {
            set![]
        },
        Kind::TokenGroup => token_names_all(t.children),
        _ => set![],
    }
}

pub open spec fn token_names_all(ts: Seq<Tree>) -> Set<Seq<char>>
    decreases ts,
{
    if ts.len() == 0 {
        set![]
    } else {
        token_names_all(ts.drop_last()).union(token_names(ts.last()))
    }
}

fn collect_token_identifiers(node: &Node, out: &mut Names)
    ensures
        final(out)@ == old(out)@.union(token_names(node@)),
    decreases node,
{
    match node.kind {
        Kind::TokenIdent => {
            if node.words.len() > 0 && is_local_name(node.words[0].as_str()) {
                out.insert(node.words[0].clone());
            }
            assert(out@ =~= old(out)@.union(token_names(node@)));
        },
        Kind::TokenGroup => {
            let ghost all = node@.children;
            let ghost before = out@;
            let mut i: usize = 0;
            assert(out@ =~= before.union(token_names_all(all.take(0))));
            while i < node.children.len()
                invariant
                    all == views(node.children@),
                    i <= node.children@.len(),
                    out@ == before.union(token_names_all(all.take(i as int))),
                decreases node.children@.len() - i,
            {
                proof {
                    take_step(all, i as int);
                }
                collect_token_identifiers(&node.children[i], out);
                i += 1;
                assert(out@ =~= before.union(token_names_all(all.take(i as int))));
            }
            proof {
                take_all(all);
            }
        },
        _ => {
            assert(out@ =~= old(out)@.union(token_names(node@)));
        },
    }
}

/// The local names among the tokens of a macro.
pub fn token_identifiers(node: &Node) -> (r: Names)
    ensures
        r@ == token_names_all(node@.tokens),
{
    let ghost all = node@.tokens;
    let mut out = Names::new();
    let mut i: usize = 0;
    while i < node.tokens.len()
        invariant
            all == views(node.tokens@),
            i <= node.tokens@.len(),
            out@ == token_names_all(all.take(i as int)),
        decreases node.tokens@.len() - i,
    {
        proof {
            take_step(all, i as int);
        }
        collect_token_identifiers(&node.tokens[i], &mut out);
        i += 1;
    }
    proof {
        take_all(all);
    }
    out
}

/// Whether a macro is read by its first argument alone.
pub open spec fn is_matches(t: Tree) -> bool {
    final_name_of(t.words) == "matches"@
}

/// Whether a macro is read token by token.
pub open spec fn reads_tokens(t: Tree) -> bool {
    let name = final_name_of(t.words);
    name == "format"@ || name == "format_args"@ || name == "vec"@
}

/// The local names that a piece of syntax mentions.
pub open spec fn names_in(t: Tree) -> Set<Seq<char>>
    decreases t,
{
    if t.kind == Kind::Macro && is_matches(t) {
        match t.arguments {
            Some(list) => if list.len() > 0 {
                names_in(list[0])
            } else {
                set![]
            },
            None => set![],
        }
    } else if t.kind == Kind::Macro && reads_tokens(t) {
        token_names_all(t.tokens)
    } else {
        let own = if t.kind == Kind::Path && local_identifier_of(t) is Some {
            set![local_identifier_of(t)->0]
        } else {
            set![]
        };
        own.union(names_in_all(t.attributes)).union(names_in_all(t.children))
    }
}

pub open spec fn names_in_all(ts: Seq<Tree>) -> Set<Seq<char>>
    decreases ts,
{
    if ts.len() == 0 {
        set![]
    } else {
        names_in_all(ts.drop_last()).union(names_in(ts.last()))
    }
}

/// The functions and methods that a piece of syntax calls, as they are named in it.
pub open spec fn calls_in(t: Tree) -> Set<Seq<char>>
    decreases t,
{
    if t.kind == Kind::Macro && is_matches(t) {
        match t.arguments {
            Some(list) => if list.len() > 0 {
                calls_in(list[0])
            } else {
                set![]
            },
            None => set![],
        }
    } else if t.kind == Kind::Macro && reads_tokens(t) {
        set![]
    } else {
        own_call(t).union(calls_in_all(t.attributes)).union(calls_in_all(t.children))
    }
}

pub open spec fn calls_in_all(ts: Seq<Tree>) -> Set<Seq<char>>
    decreases ts,
{
    if ts.len() == 0 {
        set![]
    } else {
        calls_in_all(ts.drop_last()).union(calls_in(ts.last()))
    }
}

pub open spec fn own_call(t: Tree) -> Set<Seq<char>> {
    if t.kind == Kind::Call && t.children.len() > 0 && callable_name_of(t.children[0]) is Some {
        set![callable_name_of(t.children[0])->0]
    } else if t.kind == Kind::MethodCall {
        set![method_of(t)]
    } else {
        set![]
    }
}

/// The name of a called path.
pub open spec fn callable_name_of(t: Tree) -> Option<Seq<char>> {
    if t.kind == Kind::Path {
        Some(path_name_of(t.words))
    } else {
        None
    }
}

pub fn callable_name(node: &Node) -> (r: Option<String>)
    ensures
        option_view(r) == callable_name_of(node@),
{
    if node.kind == Kind::Path {
        Some(path_name(node))
    } else {
        None
    }
}

/// The path that an expression consists of.
pub open spec fn callable_path_of(t: Tree) -> Option<Seq<char>>
    decreases t,
{
    match t.kind {
        Kind::Path => if t.second {
            None
        } else {
            Some(path_name_of(t.words))
        },
        Kind::Group | Kind::Paren => if t.children.len() > 0 {
            callable_path_of(t.children[0])
        } else {
            None
        },
        _ => None,
    }
}

pub fn callable_path_name(node: &Node) -> (r: Option<String>)
    ensures
        option_view(r) == callable_path_of(node@),
    decreases node,
{
    match node.kind {
        Kind::Path => {
            if node.second {
                None
            } else {
                Some(path_name(node))
            }
        },
        Kind::Group | Kind::Paren => {
            if node.children.len() > 0 {
                callable_path_name(&node.children[0])
            } else {
                None
            }
        },
        _ => None,
    }
}

/// The method that a method call calls.
pub open spec fn method_of(t: Tree) -> Seq<char> {
    if t.words.len() > 0 {
        t.words[0]
    } else {
        Seq::empty()
    }
}

pub fn method_name(node: &Node) -> (r: String)
    ensures
        r@ == method_of(node@),
{
    if node.words.len() > 0 {
        node.words[0].clone()
    } else {
        String::new()
    }
}

fn collect_mentions(node: &Node, names: &mut Names, calls: &mut Names)
    ensures
        final(names)@ == old(names)@.union(names_in(node@)),
        final(calls)@ == old(calls)@.union(calls_in(node@)),
    decreases node, 0nat,
{
    let ghost t = node@;
    if node.kind == Kind::Macro {
        let name = final_name(node);
        if same(name.as_str(), "matches") {
            if let Some(list) = &node.arguments {
                if list.len() > 0 {
                    collect_mentions(&list[0], names, calls);
                    return ;
                }
            }
            assert(names@ =~= old(names)@.union(names_in(t)));
            assert(calls@ =~= old(calls)@.union(calls_in(t)));
            return ;
        }
        if same(name.as_str(), "format") || same(name.as_str(), "format_args") || same(
            name.as_str(),
            "vec",
        ) {
            let found = token_identifiers(node);
            names.insert_all(&found);
            assert(calls@ =~= old(calls)@.union(calls_in(t)));
            return ;
        }
    }
    if node.kind == Kind::Path {
        if let Some(name) = local_identifier(node) {
            names.insert(name.clone());
        }
    }
    if node.kind == Kind::Call && node.children.len() > 0 {
        if let Some(name) = callable_name(&node.children[0]) {
            calls.insert(name);
        }
    }
    if node.kind == Kind::MethodCall {
        calls.insert(method_name(node));
    }
    let ghost own_names = if t.kind == Kind::Path && local_identifier_of(t) is Some {
        set![local_identifier_of(t)->0]
    } else {
        set![]
    };
    let ghost n1 = names@;
    let ghost c1 = calls@;
    assert(n1 =~= old(names)@.union(own_names));
    assert(c1 =~= old(calls)@.union(own_call(t)));
    collect_mentions_all(&node.attributes, names, calls);
    collect_mentions_all(&node.children, names, calls);
    assert(names@ =~= old(names)@.union(names_in(t)));
    assert(calls@ =~= old(calls)@.union(calls_in(t)));
}

fn collect_mentions_all(nodes: &Vec<Node>, names: &mut Names, calls: &mut Names)
    ensures
        final(names)@ == old(names)@.union(names_in_all(views(nodes@))),
        final(calls)@ == old(calls)@.union(calls_in_all(views(nodes@))),
    decreases nodes, 1nat,
{
    let ghost all = views(nodes@);
    let mut i: usize = 0;
    assert(names@ =~= old(names)@.union(names_in_all(all.take(0))));
    assert(calls@ =~= old(calls)@.union(calls_in_all(all.take(0))));
    while i < nodes.len()
        invariant
            all == views(nodes@),
            i <= nodes@.len(),
            names@ == old(names)@.union(names_in_all(all.take(i as int))),
            calls@ == old(calls)@.union(calls_in_all(all.take(i as int))),
        decreases nodes@.len() - i,
    {
        proof {
            take_step(all, i as int);
        }
        collect_mentions(&nodes[i], names, calls);
        i += 1;
        assert(names@ =~= old(names)@.union(names_in_all(all.take(i as int))));
        assert(calls@ =~= old(calls)@.union(calls_in_all(all.take(i as int))));
    }
    proof {
        take_all(all);
    }
}

/// What an expression mentions, what it calls, and the call that it comes down to.
pub struct ExprFacts {
    pub identifiers: Names,
    pub calls: Names,
    pub root_call: Option<String>,
}

#[verifier::ext_equal]
pub struct ExprFactsView {
    pub identifiers: Set<Seq<char>>,
    pub calls: Set<Seq<char>>,
    pub root_call: Option<Seq<char>>,
}

impl View for ExprFacts {
    type V = ExprFactsView;

    open spec fn view(&self) -> ExprFactsView {
        ExprFactsView {
            identifiers: self.identifiers@,
            calls: self.calls@,
            root_call: option_view(self.root_call),
        }
    }
}

impl Copied for ExprFacts {
    fn copied(&self) -> (r: Self) {
        ExprFacts {
            identifiers: self.identifiers.copied(),
            calls: self.calls.copied(),
            root_call: copy_option(&self.root_call),
        }
    }
}

pub open spec fn no_facts() -> ExprFactsView {
    ExprFactsView { identifiers: set![], calls: set![], root_call: None }
}

/// The facts of two expressions together.
pub open spec fn merged_facts(a: ExprFactsView, b: ExprFactsView) -> ExprFactsView {
    ExprFactsView {
        identifiers: a.identifiers.union(b.identifiers),
        calls: a.calls.union(b.calls),
        root_call: if a.root_call is Some {
            a.root_call
        } else {
            b.root_call
        },
    }
}

impl ExprFacts {
    pub fn none() -> (r: ExprFacts)
        ensures
            r@ == no_facts(),
    {
        ExprFacts { identifiers: Names::new(), calls: Names::new(), root_call: None }
    }

    pub fn merge(&mut self, other: &ExprFacts)
        ensures
            final(self)@ == merged_facts(old(self)@, other@),
    {
        self.identifiers.insert_all(&other.identifiers);
        self.calls.insert_all(&other.calls);
        if self.root_call.is_none() {
            self.root_call = copy_option(&other.root_call);
        }
    }
}

/// The text of the call that an expression comes down to.
pub open spec fn root_call_of(t: Tree) -> Option<Seq<char>>
    decreases t,
{
    match t.kind {
        Kind::Call | Kind::MethodCall => Some(t.text),
        Kind::Await | Kind::Try | Kind::Paren | Kind::Group | Kind::Reference => if t.children.len()
            > 0 {
            root_call_of(t.children[0])
        } else {
            None
        },
        _ => None,
    }
}

pub fn root_callable(node: &Node) -> (r: Option<String>)
    ensures
        option_view(r) == root_call_of(node@),
    decreases node,
{
    match node.kind {
        Kind::Call | Kind::MethodCall => Some(node.text.clone()),
        Kind::Await | Kind::Try | Kind::Paren | Kind::Group | Kind::Reference => {
            if node.children.len() > 0 {
                root_callable(&node.children[0])
            } else {
                None
            }
        },
        _ => None,
    }
}

pub open spec fn facts_of(t: Tree) -> ExprFactsView {
    ExprFactsView { identifiers: names_in(t), calls: calls_in(t), root_call: root_call_of(t) }
}

pub fn expression_facts(node: &Node) -> (r: ExprFacts)
    ensures
        r@ == facts_of(node@),
{
    let mut identifiers = Names::new();
    let mut calls = Names::new();
    collect_mentions(node, &mut identifiers, &mut calls);
    assert(identifiers@ =~= names_in(node@));
    assert(calls@ =~= calls_in(node@));
    ExprFacts { identifiers, calls, root_call: root_callable(node) }
}

/// The facts of several expressions together.
pub open spec fn facts_of_all(ts: Seq<Tree>) -> ExprFactsView
    decreases ts.len(),
{
    if ts.len() == 0 {
        no_facts()
    } else {
        merged_facts(facts_of_all(ts.drop_last()), facts_of(ts.last()))
    }
}

/// The children of a node from `first` on.
pub open spec fn children_from(t: Tree, first: int) -> Seq<Tree> {
    if first <= t.children.len() {
        t.children.skip(first)
    } else {
        seq![]
    }
}

/// The facts of the children of a node from `first` on.
pub fn facts_for_children(node: &Node, first: usize) -> (r: ExprFacts)
    ensures
        r@ == facts_of_all(children_from(node@, first as int)),
{
    let ghost all = children_from(node@, first as int);
    let mut facts = ExprFacts::none();
    let mut i: usize = first;
    while i < node.children.len()
        invariant
            first <= i,
            i <= node.children@.len() || i == first,
            all == children_from(node@, first as int),
            facts@ == facts_of_all(all.take(i - first)),
        decreases node.children@.len() - i,
    {
        proof {
            take_step(all, i - first);
            assert(all[i - first] == views(node.children@)[i as int]);
        }
        facts.merge(&expression_facts(&node.children[i]));
        i += 1;
    }
    proof {
        take_all(all);
    }
    facts
}

/// Whether an expression computes something by itself.
pub open spec fn nontrivial(t: Tree) -> bool
    decreases t,
{
    match t.kind {
        Kind::Array
        | Kind::Async
        | Kind::Await
        | Kind::Binary
        | Kind::Call
        | Kind::Cast
        | Kind::Index
        | Kind::MacroExpr
        | Kind::Match
        | Kind::MethodCall
        | Kind::StructLiteral
        | Kind::Try
        | Kind::TryBlock
        | Kind::Tuple
        | Kind::Unary => true,
        Kind::Group | Kind::Paren => t.children.len() > 0 && nontrivial(t.children[0]),
        _ => false,
    }
}

pub fn is_nontrivial_act_expression(node: &Node) -> (r: bool)
    ensures
        r == nontrivial(node@),
    decreases node,
{
    match node.kind {
        Kind::Array
        | Kind::Async
        | Kind::Await
        | Kind::Binary
        | Kind::Call
        | Kind::Cast
        | Kind::Index
        | Kind::MacroExpr
        | Kind::Match
        | Kind::MethodCall
        | Kind::StructLiteral
        | Kind::Try
        | Kind::TryBlock
        | Kind::Tuple
        | Kind::Unary => true,
        Kind::Group | Kind::Paren => {
            node.children.len() > 0 && is_nontrivial_act_expression(&node.children[0])
        },
        _ => false,
    }
}

/// The first word of a node, which for an operator is its text.
pub open spec fn word_is(t: Tree, word: Seq<char>) -> bool {
    t.words.len() > 0 && t.words[0] == word
}

pub fn has_word(node: &Node, word: &str) -> (r: bool)
    ensures
        r == word_is(node@, word@),
{
    node.words.len() > 0 && same(node.words[0].as_str(), word)
}

pub open spec fn compound_assignment(t: Tree) -> bool {
    word_is(t, "+="@) || word_is(t, "-="@) || word_is(t, "*="@) || word_is(t, "/="@) || word_is(
        t,
        "%="@,
    ) || word_is(t, "^="@) || word_is(t, "&="@) || word_is(t, "|="@) || word_is(t, "<<="@)
        || word_is(t, ">>="@)
}

pub fn is_compound_assignment(node: &Node) -> (r: bool)
    ensures
        r == compound_assignment(node@),
{
    has_word(node, "+=") || has_word(node, "-=") || has_word(node, "*=") || has_word(node, "/=")
        || has_word(node, "%=") || has_word(node, "^=") || has_word(node, "&=") || has_word(
        node,
        "|=",
    ) || has_word(node, "<<=") || has_word(node, ">>=")
}

/// Whether a piece of syntax holds a macro that panics.
pub open spec fn panics(t: Tree) -> bool
    decreases t,
{
    if t.kind == Kind::Macro && (final_name_of(t.words) == "panic"@ || final_name_of(t.words)
        == "unreachable"@) {
        true
    } else {
        panics_any(t.attributes) || panics_any(t.children)
    }
}

pub open spec fn panics_any(ts: Seq<Tree>) -> bool
    decreases ts,
{
    ts.len() > 0 && (panics_any(ts.drop_last()) || panics(ts.last()))
}

pub fn contains_panic(node: &Node) -> (r: bool)
    ensures
        r == panics(node@),
    decreases node, 0nat,
{
    if node.kind == Kind::Macro {
        let name = final_name(node);
        if same(name.as_str(), "panic") || same(name.as_str(), "unreachable") {
            return true;
        }
    }
    contains_panic_any(&node.attributes) || contains_panic_any(&node.children)
}

fn contains_panic_any(nodes: &Vec<Node>) -> (r: bool)
    ensures
        r == panics_any(views(nodes@)),
    decreases nodes, 1nat,
{
    let ghost all = views(nodes@);
    let mut found = false;
    let mut i: usize = 0;
    while i < nodes.len()
        invariant
            all == views(nodes@),
            i <= nodes@.len(),
            found == panics_any(all.take(i as int)),
        decreases nodes@.len() - i,
    {
        proof {
            take_step(all, i as int);
        }
        if contains_panic(&nodes[i]) {
            found = true;
        }
        i += 1;
    }
    proof {
        take_all(all);
    }
    found
}

/// Whether an expression, read as a pattern, accepts every error.
pub open spec fn broad_error_pattern_expr(t: Tree) -> bool {
    t.kind == Kind::Call && t.children.len() == 2 && callable_name_of(t.children[0]) == Some("Err"@)
        && match t.children[1].kind {
        Kind::Infer => true,
        Kind::Path => local_identifier_of(t.children[1]) is Some,
        _ => false,
    }
}

pub fn is_broad_err_pattern_expression(node: &Node) -> (r: bool)
    ensures
        r == broad_error_pattern_expr(node@),
{
    if node.kind != Kind::Call || node.children.len() != 2 {
        return false;
    }
    let named = match callable_name(&node.children[0]) {
        Some(name) => same(name.as_str(), "Err"),
        None => false,
    };
    if !named {
        return false;
    }
    let payload = &node.children[1];
    match payload.kind {
        Kind::Infer => true,
        Kind::Path => local_identifier(payload).is_some(),
        _ => false,
    }
}

/// Whether a piece of syntax checks for an error without looking at it.
pub open spec fn broad_error_check(t: Tree) -> bool
    decreases t,
{
    if t.kind == Kind::MethodCall && method_of(t) == "is_err"@ {
        true
    } else if t.kind == Kind::Macro && is_matches(t) {
        match t.arguments {
            Some(list) => list.len() > 1 && broad_error_pattern_expr(list[1]),
            None => false,
        }
    } else {
        broad_error_check_any(t.attributes) || broad_error_check_any(t.children)
    }
}

pub open spec fn broad_error_check_any(ts: Seq<Tree>) -> bool
    decreases ts,
{
    ts.len() > 0 && (broad_error_check_any(ts.drop_last()) || broad_error_check(ts.last()))
}

pub fn contains_broad_error_check(node: &Node) -> (r: bool)
    ensures
        r == broad_error_check(node@),
    decreases node, 0nat,
{
    if node.kind == Kind::MethodCall && same(method_name(node).as_str(), "is_err") {
        return true;
    }
    if node.kind == Kind::Macro && same(final_name(node).as_str(), "matches") {
        return match &node.arguments {
            Some(list) => list.len() > 1 && is_broad_err_pattern_expression(&list[1]),
            None => false,
        };
    }
    contains_broad_error_any(&node.attributes) || contains_broad_error_any(&node.children)
}

fn contains_broad_error_any(nodes: &Vec<Node>) -> (r: bool)
    ensures
        r == broad_error_check_any(views(nodes@)),
    decreases nodes, 1nat,
{
    let ghost all = views(nodes@);
    let mut found = false;
    let mut i: usize = 0;
    while i < nodes.len()
        invariant
            all == views(nodes@),
            i <= nodes@.len(),
            found == broad_error_check_any(all.take(i as int)),
        decreases nodes@.len() - i,
    {
        proof {
            take_step(all, i as int);
        }
        if contains_broad_error_check(&nodes[i]) {
            found = true;
        }
        i += 1;
    }
    proof {
        take_all(all);
    }
    found
}

/// The names behind a mutable reference.
pub open spec fn mutable_names(t: Tree) -> Set<Seq<char>> {
    if t.kind == Kind::Reference && t.flag && t.children.len() > 0 {
        names_in(t.children[0])
    } else {
        set![]
    }
}

pub fn mutable_reference_identifiers(node: &Node) -> (r: Names)
    ensures
        r@ == mutable_names(node@),
{
    if node.kind == Kind::Reference && node.flag && node.children.len() > 0 {
        expression_facts(&node.children[0]).identifiers
    } else {
        Names::new()
    }
}

/// The names behind a shared reference.
pub open spec fn shared_names(t: Tree) -> Set<Seq<char>>
    decreases t,
{
    if t.children.len() == 0 {
        set![]
    } else {
        match t.kind {
            Kind::Reference => if t.flag {
                set![]
            } else {
                names_in(t.children[0])
            },
            Kind::Group | Kind::Paren => shared_names(t.children[0]),
            _ => set![],
        }
    }
}

pub fn shared_reference_identifiers(node: &Node) -> (r: Names)
    ensures
        r@ == shared_names(node@),
    decreases node,
{
    if node.children.len() == 0 {
        return Names::new();
    }
    match node.kind {
        Kind::Reference => {
            if node.flag {
                Names::new()
            } else {
                expression_facts(&node.children[0]).identifiers
            }
        },
        Kind::Group | Kind::Paren => shared_reference_identifiers(&node.children[0]),
        _ => Names::new(),
    }
}

pub open spec fn shared_names_all(ts: Seq<Tree>) -> Set<Seq<char>>
    decreases ts.len(),
{
    if ts.len() == 0 {
        set![]
    } else {
        shared_names_all(ts.drop_last()).union(shared_names(ts.last()))
    }
}

/// The names behind shared references among the children from `first` on.
pub fn shared_references_of_children(node: &Node, first: usize) -> (r: Names)
    ensures
        r@ == shared_names_all(children_from(node@, first as int)),
{
    let ghost all = children_from(node@, first as int);
    let mut out = Names::new();
    let mut i: usize = first;
    while i < node.children.len()
        invariant
            first <= i,
            i <= node.children@.len() || i == first,
            all == children_from(node@, first as int),
            out@ == shared_names_all(all.take(i - first)),
        decreases node.children@.len() - i,
    {
        proof {
            take_step(all, i - first);
            assert(all[i - first] == views(node.children@)[i as int]);
        }
        out.insert_all(&shared_reference_identifiers(&node.children[i]));
        i += 1;
    }
    proof {
        take_all(all);
    }
    out
}

/// The names that a method is called on.
pub open spec fn receiver_names(t: Tree) -> Set<Seq<char>>
    decreases t,
{
    match t.kind {
        Kind::Path | Kind::Field | Kind::Index => names_in(t),
        Kind::Group | Kind::Paren | Kind::Reference => if t.children.len() > 0 {
            receiver_names(t.children[0])
        } else {
            set![]
        },
        _ => set![],
    }
}

pub fn direct_receiver_identifiers(node: &Node) -> (r: Names)
    ensures
        r@ == receiver_names(node@),
    decreases node,
{
    match node.kind {
        Kind::Path | Kind::Field | Kind::Index => expression_facts(node).identifiers,
        Kind::Group | Kind::Paren | Kind::Reference => {
            if node.children.len() > 0 {
                direct_receiver_identifiers(&node.children[0])
            } else {
                Names::new()
            }
        },
        _ => Names::new(),
    }
}

/// Whether a character is alphabetic in Unicode's sense.
pub uninterp spec fn is_alphabetic(c: char) -> bool;

/// `char::is_alphabetic`: the result depends on the character alone.
#[verifier::external_body]
fn char_is_alphabetic(c: char) -> (r: bool)
    ensures
        r == is_alphabetic(c),
{
    c.is_alphabetic()
}

/// Whether a format string names, from position `i` on, a value in braces.
pub open spec fn names_value(format: Seq<char>, i: int) -> bool
    decreases format.len() - i,
{
    if i < 0 || i >= format.len() {
        false
    } else if format[i] != '{' {
        names_value(format, i + 1)
    } else if i + 1 < format.len() && format[i + 1] == '{' {
        names_value(format, i + 2)
    } else {
        match find_from(format, seq!['}'], i + 1) {
            Some(end) => if i < end < format.len() {
                let field = trim_start(format.subrange(i + 1, end));
                (field.len() > 0 && (field[0] == '_' || is_alphabetic(field[0]))) || names_value(
                    format,
                    end + 1,
                )
            } else {
                false
            },
            None => false,
        }
    }
}

/// Whether a format macro captures a value by naming it in its format string.
pub open spec fn implicit_capture(t: Tree) -> bool {
    match t.arguments {
        Some(list) => list.len() > 0 && list[0].kind == Kind::StrLiteral && match list[0].value {
            Some(format) => names_value(format, 0),
            None => false,
        },
        None => false,
    }
}

fn field_names_value(all: &Vec<char>, start: usize, end: usize) -> (r: bool)
    requires
        start <= end <= all@.len(),
    ensures
        r == ({
            let field = trim_start(all@.subrange(start as int, end as int));
            field.len() > 0 && (field[0] == '_' || is_alphabetic(field[0]))
        }),
{
    let ghost whole = all@.subrange(start as int, end as int);
    let mut k: usize = start;
    while k < end && char_is_whitespace(all[k])
        invariant
            start <= k <= end <= all@.len(),
            trim_start(whole) == trim_start(all@.subrange(k as int, end as int)),
        decreases end - k,
    {
        assert(all@.subrange(k as int, end as int).skip(1) =~= all@.subrange(k + 1, end as int));
        k += 1;
    }
    k < end && (all[k] == '_' || char_is_alphabetic(all[k]))
}

fn format_names_value(format: &String) -> (r: bool)
    ensures
        r == names_value(format@, 0),
{
    let all = chars(format.as_str());
    let mut close: Vec<char> = Vec::new();
    close.push('}');
    assert(close@ =~= seq!['}']);
    let size: usize = all.len();
    let mut i: usize = 0;
    while i < size
        invariant
            all@ == format@,
            size == all@.len(),
            close@ == seq!['}'],
            i <= size,
            names_value(format@, 0) == names_value(format@, i as int),
        decreases size - i,
    {
        if all[i] != '{' {
            i += 1;
        } else if i + 1 < size && all[i + 1] == '{' {
            i += 2;
        } else {
            match find(all.as_slice(), close.as_slice(), i + 1) {
                Some(end) => {
                    if field_names_value(&all, i + 1, end) {
                        return true;
                    }
                    i = end + 1;
                },
                None => {
                    return false;
                },
            }
        }
    }
    false
}

pub fn has_implicit_format_capture(node: &Node) -> (r: bool)
    ensures
        r == implicit_capture(node@),
{
    if let Some(list) = &node.arguments {
        if list.len() > 0 && list[0].kind == Kind::StrLiteral {
            if let Some(format) = &list[0].value {
                return format_names_value(format);
            }
        }
    }
    false
}

pub open spec fn true_literal(t: Tree) -> bool {
    t.kind == Kind::BoolLiteral && t.flag
}

pub fn is_true_literal(node: &Node) -> (r: bool)
    ensures
        r == true_literal(node@),
{
    node.kind == Kind::BoolLiteral && node.flag
}

pub open spec fn is_literal(kind: Kind) -> bool {
    kind == Kind::StrLiteral || kind == Kind::IntLiteral || kind == Kind::BoolLiteral || kind
        == Kind::OtherLiteral
}

fn literal(kind: Kind) -> (r: bool)
    ensures
        r == is_literal(kind),
{
    match kind {
        Kind::StrLiteral | Kind::IntLiteral | Kind::BoolLiteral | Kind::OtherLiteral => true,
        _ => false,
    }
}

/// Whether an expression surely equals itself.
pub open spec fn reflexive(t: Tree) -> bool
    decreases t,
{
    is_literal(t.kind) || ((t.kind == Kind::Group || t.kind == Kind::Paren || t.kind
        == Kind::Reference) && t.children.len() > 0 && reflexive(t.children[0]))
}

pub fn is_provably_reflexive_expression(node: &Node) -> (r: bool)
    ensures
        r == reflexive(node@),
    decreases node,
{
    if literal(node.kind) {
        return true;
    }
    match node.kind {
        Kind::Group | Kind::Paren | Kind::Reference => {
            node.children.len() > 0 && is_provably_reflexive_expression(&node.children[0])
        },
        _ => false,
    }
}

/// Whether an expression is a path or a literal.
pub open spec fn simple_value(t: Tree) -> bool
    decreases t,
{
    t.kind == Kind::Path || is_literal(t.kind) || ((t.kind == Kind::Group || t.kind == Kind::Paren
        || t.kind == Kind::Reference) && t.children.len() > 0 && simple_value(t.children[0]))
}

pub fn is_simple_value_expression(node: &Node) -> (r: bool)
    ensures
        r == simple_value(node@),
    decreases node,
{
    if node.kind == Kind::Path || literal(node.kind) {
        return true;
    }
    match node.kind {
        Kind::Group | Kind::Paren | Kind::Reference => {
            node.children.len() > 0 && is_simple_value_expression(&node.children[0])
        },
        _ => false,
    }
}

/// Whether an expression compares something that surely equals itself with itself.
pub open spec fn self_comparison(t: Tree) -> bool {
    t.kind == Kind::Binary && word_is(t, "=="@) && t.children.len() > 1 && reflexive(t.children[0])
        && reflexive(t.children[1]) && t.children[0].text == t.children[1].text
}

pub fn is_self_comparison(node: &Node) -> (r: bool)
    ensures
        r == self_comparison(node@),
{
    node.kind == Kind::Binary && has_word(node, "==") && node.children.len() > 1
        && is_provably_reflexive_expression(&node.children[0]) && is_provably_reflexive_expression(
        &node.children[1],
    ) && same(node.children[0].text.as_str(), node.children[1].text.as_str())
}

/// Whether an expression compares a value with itself that may differ from itself.
pub open spec fn possible_self_comparison(t: Tree) -> bool {
    t.kind == Kind::Binary && word_is(t, "=="@) && t.children.len() > 1 && simple_value(
        t.children[0],
    ) && t.children[0].text == t.children[1].text && !reflexive(t.children[0])
}

pub fn is_possible_self_comparison(node: &Node) -> (r: bool)
    ensures
        r == possible_self_comparison(node@),
{
    node.kind == Kind::Binary && has_word(node, "==") && node.children.len() > 1
        && is_simple_value_expression(&node.children[0]) && same(
        node.children[0].text.as_str(),
        node.children[1].text.as_str(),
    ) && !is_provably_reflexive_expression(&node.children[0])
}

/// Whether a condition holds whatever the program does.
pub open spec fn always_true(t: Tree) -> bool
    decreases t,
{
    match t.kind {
        Kind::BoolLiteral => t.flag,
        Kind::Binary => t.children.len() > 1 && (if word_is(t, "||"@) {
            always_true(t.children[0]) || always_true(t.children[1])
        } else if word_is(t, "&&"@) {
            always_true(t.children[0]) && always_true(t.children[1])
        } else {
            self_comparison(t)
        }),
        Kind::Unary => word_is(t, "!"@) && t.children.len() > 0 && t.children[0].kind
            == Kind::BoolLiteral && !t.children[0].flag,
        Kind::Group | Kind::Paren => t.children.len() > 0 && always_true(t.children[0]),
        _ => false,
    }
}

pub fn expression_is_always_true(node: &Node) -> (r: bool)
    ensures
        r == always_true(node@),
    decreases node,
{
    match node.kind {
        Kind::BoolLiteral => node.flag,
        Kind::Binary => {
            if node.children.len() <= 1 {
                return false;
            }
            if has_word(node, "||") {
                expression_is_always_true(&node.children[0]) || expression_is_always_true(
                    &node.children[1],
                )
            } else if has_word(node, "&&") {
                expression_is_always_true(&node.children[0]) && expression_is_always_true(
                    &node.children[1],
                )
            } else {
                is_self_comparison(node)
            }
        },
        Kind::Unary => {
            has_word(node, "!") && node.children.len() > 0 && node.children[0].kind
                == Kind::BoolLiteral && !node.children[0].flag
        },
        Kind::Group | Kind::Paren => {
            node.children.len() > 0 && expression_is_always_true(&node.children[0])
        },
        _ => false,
    }
}

/// Whether a returned value is success whatever the program does.
pub open spec fn unconditional_success(t: Tree) -> bool
    decreases t,
{
    match t.kind {
        Kind::Call => t.children.len() > 0 && t.children[0].kind == Kind::Path && final_name_of(
            t.children[0].words,
        ) == "Ok"@,
        Kind::Path => has_suffix(path_name_of(t.words), "ExitCode::SUCCESS"@),
        Kind::Tuple => t.children.len() == 0,
        Kind::Group | Kind::Paren => t.children.len() > 0 && unconditional_success(t.children[0]),
        _ => false,
    }
}

pub fn is_unconditional_success(node: &Node) -> (r: bool)
    ensures
        r == unconditional_success(node@),
    decreases node,
{
    match node.kind {
        Kind::Call => {
            node.children.len() > 0 && node.children[0].kind == Kind::Path && same(
                final_name(&node.children[0]).as_str(),
                "Ok",
            )
        },
        Kind::Path => ends_with(path_name(node).as_str(), "ExitCode::SUCCESS"),
        Kind::Tuple => node.children.len() == 0,
        Kind::Group | Kind::Paren => {
            node.children.len() > 0 && is_unconditional_success(&node.children[0])
        },
        _ => false,
    }
}

/// Whether a pattern accepts every error.
pub open spec fn broad_error_pattern(t: Tree) -> bool {
    t.kind == Kind::PatTupleStruct && final_name_of(t.words) == "Err"@ && t.children.len() == 2 && (
    t.children[1].kind == Kind::PatWild || t.children[1].kind == Kind::PatIdent || (
    t.children[1].kind == Kind::PatReference && t.children[1].children.len() > 0
        && t.children[1].children[0].kind == Kind::PatIdent))
}

pub fn is_broad_err_pattern(node: &Node) -> (r: bool)
    ensures
        r == broad_error_pattern(node@),
{
    if node.kind != Kind::PatTupleStruct || !same(final_name(node).as_str(), "Err")
        || node.children.len() != 2 {
        return false;
    }
    let payload = &node.children[1];
    match payload.kind {
        Kind::PatWild | Kind::PatIdent => true,
        Kind::PatReference => {
            payload.children.len() > 0 && payload.children[0].kind == Kind::PatIdent
        },
        _ => false,
    }
}

pub open spec fn empty_expression(t: Tree) -> bool {
    (t.kind == Kind::Tuple && t.children.len() == 0) || (t.kind == Kind::BlockExpr
        && t.children.len() > 0 && t.children[0].children.len() == 0)
}

pub fn is_empty_expression(node: &Node) -> (r: bool)
    ensures
        r == empty_expression(node@),
{
    (node.kind == Kind::Tuple && node.children.len() == 0) || (node.kind == Kind::BlockExpr
        && node.children.len() > 0 && node.children[0].children.len() == 0)
}

/// The body of an arm.
pub open spec fn arm_panics(t: Tree) -> bool {
    t.children.len() > 0 && panics(t.children.last())
}

pub fn arm_contains_panic(node: &Node) -> (r: bool)
    ensures
        r == arm_panics(node@),
{
    node.children.len() > 0 && contains_panic(&node.children[node.children.len() - 1])
}

/// Whether an arm accepts every error and does nothing.
pub open spec fn accepts_any_error(t: Tree) -> bool {
    !t.flag && t.children.len() > 0 && broad_error_pattern(t.children[0]) && empty_expression(
        t.children.last(),
    )
}

fn arm_accepts_any_error(node: &Node) -> (r: bool)
    ensures
        r == accepts_any_error(node@),
{
    !node.flag && node.children.len() > 0 && is_broad_err_pattern(&node.children[0])
        && is_empty_expression(&node.children[node.children.len() - 1])
}

/// What a `match` with a panicking arm checks.
pub open spec fn match_kind(t: Tree) -> OracleKind {
    let passing = crate::seqs::keep(children_from(t, 1), |arm: Tree| !arm_panics(arm));
    if passing.len() == 1 && accepts_any_error(passing[0]) {
        OracleKind::BroadError
    } else {
        OracleKind::Outcome
    }
}

pub fn classify_assert_match(node: &Node) -> (r: OracleKind)
    ensures
        r == match_kind(node@),
{
    let ghost p = |arm: Tree| !arm_panics(arm);
    let ghost all = children_from(node@, 1);
    let mut passing: usize = 0;
    let mut broad = false;
    let mut i: usize = 1;
    while i < node.children.len()
        invariant
            p == (|arm: Tree| !arm_panics(arm)),
            all == children_from(node@, 1),
            1 <= i,
            i <= node.children@.len() || i == 1,
            passing <= i,
            passing == crate::seqs::keep(all.take(i - 1), p).len(),
            passing == 1 ==> broad == accepts_any_error(
                crate::seqs::keep(all.take(i - 1), p)[0],
            ),
        decreases node.children@.len() - i,
    {
        proof {
            take_step(all, i - 1);
            assert(all[i - 1] == views(node.children@)[i as int]);
        }
        if !arm_contains_panic(&node.children[i]) {
            if passing == 0 {
                broad = arm_accepts_any_error(&node.children[i]);
            }
            passing += 1;
        }
        i += 1;
    }
    proof {
        take_all(all);
    }
    if passing == 1 && broad {
        OracleKind::BroadError
    } else {
        OracleKind::Outcome
    }
}

/// Whether some arm of a `match` panics.
pub open spec fn some_arm_panics(t: Tree) -> bool {
    crate::seqs::any(children_from(t, 1), |arm: Tree| arm_panics(arm))
}

pub fn any_arm_panics(node: &Node) -> (r: bool)
    ensures
        r == some_arm_panics(node@),
{
    let ghost all = children_from(node@, 1);
    let mut i: usize = 1;
    while i < node.children.len()
        invariant
            1 <= i,
            all == children_from(node@, 1),
            forall|j: int| 0 <= j < i - 1 && j < all.len() ==> !arm_panics(#[trigger] all[j]),
        decreases node.children@.len() - i,
    {
        assert(all[i - 1] == views(node.children@)[i as int]);
        if arm_contains_panic(&node.children[i]) {
            assert(arm_panics(all[i - 1]));
            return true;
        }
        i += 1;
    }
    false
}

/// Whether a call only looks at a local value.
pub open spec fn local_observer(call: Seq<char>) -> bool {
    let name = after_last(call, "::"@);
    name == "contains"@ || name == "ends_with"@ || name == "is_empty"@ || name == "is_err"@ || name
        == "is_none"@ || name == "is_ok"@ || name == "is_some"@ || name == "len"@ || name
        == "starts_with"@
}

pub fn is_local_observer(call: &str) -> (r: bool)
    ensures
        r == local_observer(call@),
{
    let last = last_part(call, "::");
    let name = last.as_str();
    same(name, "contains") || same(name, "ends_with") || same(name, "is_empty") || same(
        name,
        "is_err",
    ) || same(name, "is_none") || same(name, "is_ok") || same(name, "is_some") || same(name, "len")
        || same(name, "starts_with")
}

/// Whether a name reads like that of a helper that asserts.
pub open spec fn assertion_helper(name: Seq<char>) -> bool {
    name == "check"@ || name == "ensure"@ || name == "validate"@ || name == "verify"@ || has_prefix(
        name,
        "assert_"@,
    ) || has_prefix(name, "check_"@) || has_prefix(name, "ensure_"@) || has_prefix(name, "expect_"@)
        || has_prefix(name, "validate_"@) || has_prefix(name, "verify_"@)
}

pub fn looks_like_assertion_helper(name: &str) -> (r: bool)
    ensures
        r == assertion_helper(name@),
{
    same(name, "check") || same(name, "ensure") || same(name, "validate") || same(name, "verify")
        || starts_with(name, "assert_") || starts_with(name, "check_") || starts_with(
        name,
        "ensure_",
    ) || starts_with(name, "expect_") || starts_with(name, "validate_") || starts_with(
        name,
        "verify_",
    )
}

/// Whether the first argument of a call is a duration written down as a number.
pub open spec fn fixed_duration_argument(t: Tree) -> bool {
    t.children.len() > 1 && ({
        let first = t.children[1];
        first.kind == Kind::IntLiteral || (first.kind == Kind::Call && first.children.len() > 1
            && first.children[0].kind == Kind::Path && duration_constructor(
            final_name_of(first.children[0].words),
        ) && first.children[1].kind == Kind::IntLiteral)
    })
}

pub open spec fn duration_constructor(name: Seq<char>) -> bool {
    name == "from_secs"@ || name == "from_millis"@ || name == "from_micros"@ || name
        == "from_nanos"@
}

pub fn fixed_duration(node: &Node) -> (r: bool)
    ensures
        r == fixed_duration_argument(node@),
{
    if node.children.len() <= 1 {
        return false;
    }
    let first = &node.children[1];
    if first.kind == Kind::IntLiteral {
        return true;
    }
    if first.kind != Kind::Call || first.children.len() <= 1 || first.children[0].kind
        != Kind::Path {
        return false;
    }
    let last = final_name(&first.children[0]);
    let name = last.as_str();
    (same(name, "from_secs") || same(name, "from_millis") || same(name, "from_micros") || same(
        name,
        "from_nanos",
    )) && first.children[1].kind == Kind::IntLiteral
}

pub open spec fn sleep_call(name: Seq<char>) -> bool {
    name == "std::thread::sleep"@ || name == "tokio::time::sleep"@ || name
        == "async_std::task::sleep"@
}

pub fn is_fixed_sleep_call(name: &str) -> (r: bool)
    ensures
        r == sleep_call(name@),
{
    same(name, "std::thread::sleep") || same(name, "tokio::time::sleep") || same(
        name,
        "async_std::task::sleep",
    )
}

pub open spec fn clock_call(name: Seq<char>) -> bool {
    name == "std::time::SystemTime::now"@ || name == "std::time::Instant::now"@ || name
        == "tokio::time::Instant::now"@ || name == "chrono::Utc::now"@ || name
        == "chrono::Local::now"@
}

pub fn is_clock_call(name: &str) -> (r: bool)
    ensures
        r == clock_call(name@),
{
    same(name, "std::time::SystemTime::now") || same(name, "std::time::Instant::now") || same(
        name,
        "tokio::time::Instant::now",
    ) || same(name, "chrono::Utc::now") || same(name, "chrono::Local::now")
}

pub open spec fn random_call(name: Seq<char>) -> bool {
    name == "rand::random"@ || name == "rand::thread_rng"@ || name == "rand::rng"@ || name
        == "rand::rngs::StdRng::from_entropy"@ || name == "rand::rngs::SmallRng::from_entropy"@
}

pub fn is_random_call(name: &str) -> (r: bool)
    ensures
        r == random_call(name@),
{
    same(name, "rand::random") || same(name, "rand::thread_rng") || same(name, "rand::rng") || same(
        name,
        "rand::rngs::StdRng::from_entropy",
    ) || same(name, "rand::rngs::SmallRng::from_entropy")
}

pub open spec fn environment_call(name: Seq<char>) -> bool {
    name == "std::env::set_var"@ || name == "std::env::remove_var"@ || name
        == "std::env::set_current_dir"@
}

pub fn is_environment_mutation(name: &str) -> (r: bool)
    ensures
        r == environment_call(name@),
{
    same(name, "std::env::set_var") || same(name, "std::env::remove_var") || same(
        name,
        "std::env::set_current_dir",
    )
}

/// Whether a name could be that of a nondeterministic function imported by a glob.
pub open spec fn glob_suspect(name: Seq<char>) -> bool {
    let first = crate::text::before_first(name, "::"@);
    let last = after_last(name, "::"@);
    last == "sleep"@ || last == "random"@ || last == "thread_rng"@ || last == "rng"@ || last
        == "set_var"@ || last == "remove_var"@ || last == "set_current_dir"@ || last
        == "from_entropy"@ || (last == "now"@ && (first == "Instant"@ || first == "SystemTime"@
        || first == "Utc"@ || first == "Local"@))
}

pub fn may_be_hygiene_call_from_glob(name: &str) -> (r: bool)
    ensures
        r == glob_suspect(name@),
{
    let first_part = crate::text::head(name, "::");
    let last_name = last_part(name, "::");
    let first = first_part.as_str();
    let last = last_name.as_str();
    same(last, "sleep") || same(last, "random") || same(last, "thread_rng") || same(last, "rng")
        || same(last, "set_var") || same(last, "remove_var") || same(last, "set_current_dir")
        || same(last, "from_entropy") || (same(last, "now") && (same(first, "Instant") || same(
        first,
        "SystemTime",
    ) || same(first, "Utc") || same(first, "Local")))
}

pub open spec fn ordinary_macro(name: Seq<char>) -> bool {
    let last = after_last(name, "::"@);
    last == "vec"@ || last == "format"@ || last == "println"@ || last == "eprintln"@ || last
        == "write"@ || last == "writeln"@ || last == "matches"@ || last == "panic"@ || last
        == "unreachable"@ || last == "todo"@
}

pub fn known_non_assertion_macro(name: &str) -> (r: bool)
    ensures
        r == ordinary_macro(name@),
{
    let last_name = last_part(name, "::");
    let last = last_name.as_str();
    same(last, "vec") || same(last, "format") || same(last, "println") || same(last, "eprintln")
        || same(last, "write") || same(last, "writeln") || same(last, "matches") || same(
        last,
        "panic",
    ) || same(last, "unreachable") || same(last, "todo")
}

/// The names that a pattern binds.
pub open spec fn bound_by(t: Tree) -> Set<Seq<char>>
    decreases t,
{
    match t.kind {
        Kind::PatIdent => if t.words.len() > 0 {
            set![t.words[0]].union(bound_by_all(t.children))
        } else {
            bound_by_all(t.children)
        },
        Kind::PatTuple
        | Kind::PatTupleStruct
        | Kind::PatStruct
        | Kind::PatField
        | Kind::PatReference
        | Kind::PatSlice
        | Kind::PatType
        | Kind::PatParen => bound_by_all(t.children),
        _ => set![],
    }
}

pub open spec fn bound_by_all(ts: Seq<Tree>) -> Set<Seq<char>>
    decreases ts,
{
    if ts.len() == 0 {
        set![]
    } else {
        bound_by_all(ts.drop_last()).union(bound_by(ts.last()))
    }
}

/// Adds the names that a pattern binds.
pub fn identifiers_from_pattern(node: &Node, out: &mut Names)
    ensures
        final(out)@ == old(out)@.union(bound_by(node@)),
    decreases node,
{
    let ghost t = node@;
    match node.kind {
        Kind::PatIdent => {
            if node.words.len() > 0 {
                out.insert(node.words[0].clone());
            }
        },
        Kind::PatTuple
        | Kind::PatTupleStruct
        | Kind::PatStruct
        | Kind::PatField
        | Kind::PatReference
        | Kind::PatSlice
        | Kind::PatType
        | Kind::PatParen => {},
        _ => {
            assert(out@ =~= old(out)@.union(bound_by(t)));
            return ;
        },
    }
    let ghost before = out@;
    let ghost all = t.children;
    let mut i: usize = 0;
    assert(out@ =~= before.union(bound_by_all(all.take(0))));
    while i < node.children.len()
        invariant
            all == views(node.children@),
            i <= node.children@.len(),
            out@ == before.union(bound_by_all(all.take(i as int))),
        decreases node.children@.len() - i,
    {
        proof {
            take_step(all, i as int);
        }
        identifiers_from_pattern(&node.children[i], out);
        i += 1;
        assert(out@ =~= before.union(bound_by_all(all.take(i as int))));
    }
    proof {
        take_all(all);
        assert(out@ =~= old(out)@.union(bound_by(t)));
    }
}

} // verus!
