//! The walk through the body of a test that gathers its facts.

use vstd::prelude::*;

use super::aliases::{
    alias_target, collect_type_alias, collect_use_tree, continue_with, continued, resolve_alias,
    resolved, with_imports, with_type_alias, Aliases, GLOB_IMPORT_SENTINEL,
};
use super::config::{configured_matches, TestPolicyConfig, TestPolicyView};
use super::facts::{
    always_true, any_arm_panics, assertion_helper, bound_by, broad_error_check,
    broad_error_pattern_expr, callable_name, callable_name_of, callable_path_name,
    callable_path_of, children_from, classify_assert_match, clock_call, compound_assignment,
    contains_broad_error_check, contains_panic, direct_receiver_identifiers, environment_call,
    expression_facts, expression_is_always_true, facts_for_children, facts_of, facts_of_all,
    fixed_duration, fixed_duration_argument, glob_suspect, has_implicit_format_capture,
    identifiers_from_pattern, implicit_capture, is_broad_err_pattern_expression, is_clock_call,
    is_compound_assignment, is_environment_mutation, is_fixed_sleep_call,
    is_nontrivial_act_expression, is_possible_self_comparison, is_provably_reflexive_expression,
    is_random_call, is_self_comparison, is_simple_value_expression, is_true_literal,
    is_unconditional_success, known_non_assertion_macro, local_identifier, local_identifier_of,
    looks_like_assertion_helper, match_kind, may_be_hygiene_call_from_glob, merged_facts,
    method_name, method_of, mutable_names, mutable_reference_identifiers, names_in, no_facts,
    nontrivial, ordinary_macro, panics, path_name, path_name_of, possible_self_comparison,
    random_call, receiver_names, reflexive, self_comparison, shared_names_all,
    shared_references_of_children, simple_value, sleep_call, some_arm_panics, token_identifiers,
    token_names_all, true_literal, unconditional_success, ExprFacts, ExprFactsView,
};
use super::markers::{section_at, section_on};
use super::model::{
    AnalysisGap, AnalysisGapView, CallFact, CallFactView, HygieneFact, HygieneFactView,
    HygieneKind, Marker, OracleFact, OracleFactView, OracleKind, Section, SectionStatements,
    SourceLocation, SourceLocationView, SourceSpan, TestIdentity, TestIdentityView,
};
use super::syntax::{Kind, Node, Tree};
use crate::copies::{copy_option, option_view, Copied};
use crate::names::{bound_to, only_name, NameMap, Names};
use crate::seqs::{take_all, take_step, views};
use crate::text::{after_last, before_first, has_prefix, head, last_part, same, starts_with};

verus! {

broadcast use {
    vstd::std_specs::vec::group_vec_axioms,
    crate::seqs::group_views,
    crate::validate_tests::syntax::Node::tree_parts,
};

/// What stays the same during the walk through one test.
pub struct Context<'a> {
    pub path: &'a str,
    pub identity: &'a TestIdentity,
    pub markers: &'a Vec<Marker>,
    pub policy: &'a TestPolicyConfig,
    /// Whether the test returns a value that can make it fail.
    pub observable_return: bool,
}

#[verifier::ext_equal]
pub struct ContextView {
    pub path: Seq<char>,
    pub identity: TestIdentityView,
    pub markers: Seq<Marker>,
    pub policy: TestPolicyView,
    pub observable_return: bool,
}

impl View for Context<'_> {
    type V = ContextView;

    open spec fn view(&self) -> ContextView {
        ContextView {
            path: self.path@,
            identity: self.identity@,
            markers: self.markers@,
            policy: self.policy@,
            observable_return: self.observable_return,
        }
    }
}

/// What the walk has gathered so far.
pub struct FactVisitor {
    pub inside_oracle: bool,
    /// Whether what is visited may not execute.
    pub conditional: bool,
    pub act_outputs: Names,
    pub act_output_spans: NameMap<SourceSpan>,
    pub act_effects: Names,
    pub act_receivers: Names,
    pub act_shared_references: Names,
    pub act_root_calls: Names,
    pub uncontrolled_clock_outputs: Names,
    pub local_origins: NameMap<String>,
    pub local_callable_origins: NameMap<String>,
    pub bound_names: Names,
    pub current_binding_identifiers: Names,
    pub mutable_reference_aliases: NameMap<Names>,
    pub virtual_time: bool,
    pub use_aliases: Aliases,
    pub calls: Vec<CallFact>,
    pub oracles: Vec<OracleFact>,
    pub hygiene: Vec<HygieneFact>,
    pub gaps: Vec<AnalysisGap>,
    pub section_statements: SectionStatements,
}

#[verifier::ext_equal]
pub struct Facts {
    pub inside_oracle: bool,
    pub conditional: bool,
    pub act_outputs: Set<Seq<char>>,
    pub act_output_spans: Map<Seq<char>, SourceSpan>,
    pub act_effects: Set<Seq<char>>,
    pub act_receivers: Set<Seq<char>>,
    pub act_shared_references: Set<Seq<char>>,
    pub act_root_calls: Set<Seq<char>>,
    pub uncontrolled_clock_outputs: Set<Seq<char>>,
    pub local_origins: Map<Seq<char>, Seq<char>>,
    pub local_callable_origins: Map<Seq<char>, Seq<char>>,
    pub bound_names: Set<Seq<char>>,
    pub current_binding_identifiers: Set<Seq<char>>,
    pub mutable_reference_aliases: Map<Seq<char>, Set<Seq<char>>>,
    pub virtual_time: bool,
    pub use_aliases: Map<Seq<char>, Seq<char>>,
    pub calls: Seq<CallFactView>,
    pub oracles: Seq<OracleFactView>,
    pub hygiene: Seq<HygieneFactView>,
    pub gaps: Seq<AnalysisGapView>,
    pub section_statements: SectionStatements,
}

impl View for FactVisitor {
    type V = Facts;

    open spec fn view(&self) -> Facts {
        Facts {
            inside_oracle: self.inside_oracle,
            conditional: self.conditional,
            act_outputs: self.act_outputs@,
            act_output_spans: self.act_output_spans@,
            act_effects: self.act_effects@,
            act_receivers: self.act_receivers@,
            act_shared_references: self.act_shared_references@,
            act_root_calls: self.act_root_calls@,
            uncontrolled_clock_outputs: self.uncontrolled_clock_outputs@,
            local_origins: self.local_origins@,
            local_callable_origins: self.local_callable_origins@,
            bound_names: self.bound_names@,
            current_binding_identifiers: self.current_binding_identifiers@,
            mutable_reference_aliases: self.mutable_reference_aliases@,
            virtual_time: self.virtual_time,
            use_aliases: self.use_aliases@,
            calls: views(self.calls@),
            oracles: views(self.oracles@),
            hygiene: views(self.hygiene@),
            gaps: views(self.gaps@),
            section_statements: self.section_statements,
        }
    }
}

/// The facts before anything is visited.
pub open spec fn no_facts_yet(
    parameters: Set<Seq<char>>,
    virtual_time: bool,
    use_aliases: Map<Seq<char>, Seq<char>>,
) -> Facts {
    Facts {
        inside_oracle: false,
        conditional: false,
        act_outputs: set![],
        act_output_spans: Map::empty(),
        act_effects: set![],
        act_receivers: set![],
        act_shared_references: set![],
        act_root_calls: set![],
        uncontrolled_clock_outputs: set![],
        local_origins: Map::empty(),
        local_callable_origins: Map::empty(),
        bound_names: parameters,
        current_binding_identifiers: set![],
        mutable_reference_aliases: Map::empty(),
        virtual_time,
        use_aliases,
        calls: seq![],
        oracles: seq![],
        hygiene: seq![],
        gaps: seq![],
        section_statements: SectionStatements { body: 0, arrange: 0, act: 0, assert: 0 },
    }
}

impl ContextView {
    pub open spec fn section(self, span: SourceSpan) -> Section {
        section_on(self.markers, span.start.line)
    }

    /// Whether the test has section markers.
    pub open spec fn explicit(self) -> bool {
        self.markers.len() > 0
    }

    /// Whether an oracle here can observe the Act.
    pub open spec fn oracle_section(self, span: SourceSpan) -> bool {
        self.section(span) == Section::Act || self.section(span) == Section::Assert || (
        !self.explicit() && self.section(span) == Section::Body)
    }

    pub open spec fn gap(
        self,
        code: Seq<char>,
        message: Seq<char>,
        span: SourceSpan,
        label: Seq<char>,
    ) -> AnalysisGapView {
        AnalysisGapView {
            code,
            test: self.identity,
            message,
            location: SourceLocationView { path: self.path, span, label },
        }
    }
}

impl Context<'_> {
    pub fn section(&self, span: SourceSpan) -> (r: Section)
        ensures
            r == self@.section(span),
    {
        section_at(self.markers, span.start.line)
    }

    pub fn explicit(&self) -> (r: bool)
        ensures
            r == self@.explicit(),
    {
        self.markers.len() > 0
    }

    pub fn is_oracle_section(&self, span: SourceSpan) -> (r: bool)
        ensures
            r == self@.oracle_section(span),
    {
        let section = self.section(span);
        section == Section::Act || section == Section::Assert || (!self.explicit() && section
            == Section::Body)
    }

    pub fn gap(&self, code: &str, message: &str, span: SourceSpan, label: &str) -> (r: AnalysisGap)
        ensures
            r@ == self@.gap(code@, message@, span, label@),
    {
        AnalysisGap {
            code: code.to_owned(),
            test: self.identity.copied(),
            message: message.to_owned(),
            location: SourceLocation {
                path: self.path.to_owned(),
                span,
                label: label.to_owned(),
            },
        }
    }
}

impl Facts {
    /// The facts with a gap.
    pub open spec fn with_gap(
        self,
        c: ContextView,
        code: Seq<char>,
        message: Seq<char>,
        span: SourceSpan,
    ) -> Facts {
        Facts {
            gaps: self.gaps.push(c.gap(code, message, span, "partially analyzed syntax"@)),
            ..self
        }
    }

    /// The facts with a call. A call that belongs to the Act also tells what the Act
    /// works on.
    pub open spec fn with_call(
        self,
        c: ContextView,
        call: CallFactView,
        mutable: Set<Seq<char>>,
        shared: Set<Seq<char>>,
    ) -> Facts {
        let acts = !self.inside_oracle && (call.section == Section::Act || (!c.explicit()
            && call.section == Section::Body));
        Facts {
            act_receivers: if acts {
                self.act_receivers.union(call.receiver_identifiers)
            } else {
                self.act_receivers
            },
            act_effects: if acts {
                self.act_effects.union(mutable)
            } else {
                self.act_effects
            },
            act_shared_references: if acts {
                self.act_shared_references.union(shared)
            } else {
                self.act_shared_references
            },
            calls: self.calls.push(call),
            ..self
        }
    }

    pub open spec fn with_hygiene(
        self,
        c: ContextView,
        kind: HygieneKind,
        call: Seq<char>,
        span: SourceSpan,
    ) -> Facts {
        Facts {
            hygiene: self.hygiene.push(
                HygieneFactView {
                    kind,
                    call,
                    span,
                    section: c.section(span),
                    in_oracle: self.inside_oracle,
                },
            ),
            ..self
        }
    }

    /// The call that the one name among some facts comes from.
    pub open spec fn local_origin(self, names: Set<Seq<char>>) -> Option<Seq<char>> {
        match only_name(names) {
            Some(name) => if self.local_origins.contains_key(name) {
                Some(self.local_origins[name])
            } else {
                None
            },
            None => None,
        }
    }

    /// The call that an expression comes down to, through the local value it names.
    pub open spec fn root_call(self, facts: ExprFactsView) -> Option<Seq<char>> {
        let origin = self.local_origin(facts.identifiers);
        if origin is Some && !facts.calls.is_empty() && forall|call: Seq<char>| #[trigger]
            facts.calls.contains(call) ==> passes_through(call) {
            origin
        } else if facts.root_call is Some {
            facts.root_call
        } else {
            origin
        }
    }

    pub open spec fn with_oracle(
        self,
        c: ContextView,
        kind: OracleKind,
        span: SourceSpan,
        text: Seq<char>,
        actual: ExprFactsView,
        expected: ExprFactsView,
        self_derived_candidate: bool,
        tautological: bool,
    ) -> Facts {
        let noted = if self.conditional {
            self.with_gap(
                c,
                "analysis.conditional-oracle"@,
                "cannot prove that this conditional or nested oracle executes"@,
                span,
            )
        } else {
            self
        };
        Facts {
            oracles: noted.oracles.push(
                OracleFactView {
                    kind,
                    span,
                    section: c.section(span),
                    text,
                    actual_identifiers: actual.identifiers,
                    expected_identifiers: expected.identifiers,
                    actual_calls: actual.calls,
                    expected_calls: expected.calls,
                    produced_identifiers: self.current_binding_identifiers,
                    actual_root_call: self.root_call(actual),
                    expected_root_call: self.root_call(expected),
                    self_derived_candidate,
                    conditional: self.conditional,
                    tautological,
                },
            ),
            ..noted
        }
    }

    /// The names that a value may change through a mutable reference.
    pub open spec fn effect_names(self, t: Tree) -> Set<Seq<char>> {
        let base = mutable_names(t).union(self.aliased(t));
        Set::new(
            |y: Seq<char>|
                base.contains(y) || exists|x: Seq<char>|
                    base.contains(x) && #[trigger] self.mutable_reference_aliases.contains_key(x)
                        && self.mutable_reference_aliases[x].contains(y),
        )
    }

    pub open spec fn aliased(self, t: Tree) -> Set<Seq<char>> {
        if t.kind == Kind::Path && local_identifier_of(t) is Some
            && self.mutable_reference_aliases.contains_key(local_identifier_of(t)->0) {
            self.mutable_reference_aliases[local_identifier_of(t)->0]
        } else {
            set![]
        }
    }

    pub open spec fn effect_names_all(self, ts: Seq<Tree>) -> Set<Seq<char>>
        decreases ts.len(),
    {
        if ts.len() == 0 {
            set![]
        } else {
            self.effect_names_all(ts.drop_last()).union(self.effect_names(ts.last()))
        }
    }

    /// What a called name stands for at this place.
    pub open spec fn imported(self, name: Seq<char>) -> Seq<char> {
        let first = before_first(name, "::"@);
        if self.local_callable_origins.contains_key(first) {
            continued(self.local_callable_origins[first], name)
        } else if self.bound_names.contains(first) {
            name
        } else {
            resolved(name, self.use_aliases)
        }
    }

    /// Whether the facts of a value tell that it comes from an uncontrolled clock.
    pub open spec fn from_clock(self, facts: ExprFactsView) -> bool {
        (exists|call: Seq<char>| #[trigger]
            facts.calls.contains(call) && clock_call(self.imported(call)))
            || !facts.identifiers.disjoint(self.uncontrolled_clock_outputs)
    }

    /// Whether a value is made from what the Act produced or changed.
    pub open spec fn from_act(self, facts: ExprFactsView) -> bool {
        !facts.identifiers.disjoint(self.act_outputs) || !facts.identifiers.disjoint(
            self.act_effects,
        )
    }
}

/// Whether a call hands its receiver on unchanged.
pub open spec fn passes_through(call: Seq<char>) -> bool {
    let name = after_last(call, "::"@);
    name == "as_ref"@ || name == "borrow"@ || name == "clone"@ || name == "to_owned"@
}

fn is_pass_through(call: &str) -> (r: bool)
    ensures
        r == passes_through(call@),
{
    let last = last_part(call, "::");
    let name = last.as_str();
    same(name, "as_ref") || same(name, "borrow") || same(name, "clone") || same(name, "to_owned")
}

fn all_pass_through(calls: &Names) -> (r: bool)
    ensures
        r == forall|call: Seq<char>| #[trigger] calls@.contains(call) ==> passes_through(call),
{
    let list = calls.as_vec();
    let ghost all = views(list@);
    let mut i: usize = 0;
    while i < list.len()
        invariant
            all == views(list@),
            all.to_set() == calls@,
            i <= list@.len(),
            forall|j: int| 0 <= j < i ==> passes_through(#[trigger] all[j]),
        decreases list@.len() - i,
    {
        if !is_pass_through(list[i].as_str()) {
            assert(all.to_set().contains(all[i as int]));
            return false;
        }
        i += 1;
    }
    assert forall|call: Seq<char>| #[trigger] calls@.contains(call) implies passes_through(
        call,
    ) by {
        let k = all.index_of(call);
        assert(all[k] == call);
    }
    true
}

impl FactVisitor {
    pub fn new(parameters: Names, virtual_time: bool, use_aliases: Aliases) -> (r: FactVisitor)
        ensures
            r@ == no_facts_yet(parameters@, virtual_time, use_aliases@),
    {
        FactVisitor {
            inside_oracle: false,
            conditional: false,
            act_outputs: Names::new(),
            act_output_spans: NameMap::new(),
            act_effects: Names::new(),
            act_receivers: Names::new(),
            act_shared_references: Names::new(),
            act_root_calls: Names::new(),
            uncontrolled_clock_outputs: Names::new(),
            local_origins: NameMap::new(),
            local_callable_origins: NameMap::new(),
            bound_names: parameters,
            current_binding_identifiers: Names::new(),
            mutable_reference_aliases: NameMap::new(),
            virtual_time,
            use_aliases,
            calls: Vec::new(),
            oracles: Vec::new(),
            hygiene: Vec::new(),
            gaps: Vec::new(),
            section_statements: SectionStatements { body: 0, arrange: 0, act: 0, assert: 0 },
        }
    }

    fn gap(&mut self, c: &Context, code: &str, message: &str, span: SourceSpan)
        ensures
            final(self)@ == old(self)@.with_gap(c@, code@, message@, span),
    {
        self.gaps.push(c.gap(code, message, span, "partially analyzed syntax"));
    }

    fn record_call(&mut self, c: &Context, call: CallFact, mutable: &Names, shared: &Names)
        ensures
            final(self)@ == old(self)@.with_call(c@, call@, mutable@, shared@),
    {
        if !self.inside_oracle && (call.section == Section::Act || (!c.explicit() && call.section
            == Section::Body)) {
            self.act_receivers.insert_all(&call.receiver_identifiers);
            self.act_effects.insert_all(mutable);
            self.act_shared_references.insert_all(shared);
        }
        self.calls.push(call);
    }

    fn record_hygiene(&mut self, c: &Context, kind: HygieneKind, call: &str, span: SourceSpan)
        ensures
            final(self)@ == old(self)@.with_hygiene(c@, kind, call@, span),
    {
        let fact = HygieneFact {
            kind,
            call: call.to_owned(),
            span,
            section: c.section(span),
            in_oracle: self.inside_oracle,
        };
        self.hygiene.push(fact);
    }

    fn local_origin(&self, names: &Names) -> (r: Option<String>)
        ensures
            option_view(r) == self@.local_origin(names@),
    {
        match names.only() {
            Some(name) => match self.local_origins.get(name.as_str()) {
                Some(origin) => Some(origin.clone()),
                None => None,
            },
            None => None,
        }
    }

    fn resolved_root_call(&self, facts: &ExprFacts) -> (r: Option<String>)
        ensures
            option_view(r) == self@.root_call(facts@),
    {
        let origin = self.local_origin(&facts.identifiers);
        if origin.is_some() && !facts.calls.is_empty() && all_pass_through(&facts.calls) {
            return origin;
        }
        if facts.root_call.is_some() {
            copy_option(&facts.root_call)
        } else {
            origin
        }
    }

    fn record_oracle(
        &mut self,
        c: &Context,
        kind: OracleKind,
        span: SourceSpan,
        text: &str,
        actual: ExprFacts,
        expected: ExprFacts,
        self_derived_candidate: bool,
        tautological: bool,
    )
        ensures
            final(self)@ == old(self)@.with_oracle(
                c@,
                kind,
                span,
                text@,
                actual@,
                expected@,
                self_derived_candidate,
                tautological,
            ),
    {
        let actual_root_call = self.resolved_root_call(&actual);
        let expected_root_call = self.resolved_root_call(&expected);
        if self.conditional {
            self.gap(
                c,
                "analysis.conditional-oracle",
                "cannot prove that this conditional or nested oracle executes",
                span,
            );
        }
        let fact = OracleFact {
            kind,
            span,
            section: c.section(span),
            text: text.to_owned(),
            actual_identifiers: actual.identifiers,
            expected_identifiers: expected.identifiers,
            actual_calls: actual.calls,
            expected_calls: expected.calls,
            produced_identifiers: self.current_binding_identifiers.copied(),
            actual_root_call,
            expected_root_call,
            self_derived_candidate,
            conditional: self.conditional,
            tautological,
        };
        self.oracles.push(fact);
    }

    fn effect_identifiers_from_expression(&self, node: &Node) -> (r: Names)
        ensures
            r@ == self@.effect_names(node@),
    {
        let ghost aliases = self@.mutable_reference_aliases;
        let mut base = mutable_reference_identifiers(node);
        if node.kind == Kind::Path {
            if let Some(name) = local_identifier(node) {
                if let Some(aliased) = self.mutable_reference_aliases.get(name.as_str()) {
                    base.insert_all(aliased);
                }
            }
        }
        assert(base@ =~= mutable_names(node@).union(self@.aliased(node@)));
        let mut out = base.copied();
        let list = base.as_vec();
        let ghost all = views(list@);
        let mut i: usize = 0;
        while i < list.len()
            invariant
                aliases == self@.mutable_reference_aliases,
                all == views(list@),
                all.to_set() == base@,
                i <= list@.len(),
                forall|y: Seq<char>|
                    #![trigger out@.contains(y)]
                    out@.contains(y) <==> base@.contains(y) || exists|j: int|
                        0 <= j < i && aliases.contains_key(#[trigger] all[j])
                            && aliases[all[j]].contains(y),
            decreases list@.len() - i,
        {
            let ghost before = out@;
            if let Some(aliased) = self.mutable_reference_aliases.get(list[i].as_str()) {
                out.insert_all(aliased);
            }
            proof {
                assert forall|y: Seq<char>|
                    #![trigger out@.contains(y)]
                    out@.contains(y) <==> base@.contains(y) || exists|j: int|
                        0 <= j < i + 1 && aliases.contains_key(#[trigger] all[j])
                            && aliases[all[j]].contains(y) by {
                    assert(before.contains(y) <==> base@.contains(y) || exists|j: int|
                        0 <= j < i && aliases.contains_key(#[trigger] all[j])
                            && aliases[all[j]].contains(y));
                    if aliases.contains_key(all[i as int]) && aliases[all[i as int]].contains(y) {
                        assert(out@.contains(y));
                    }
                }
            }
            i += 1;
        }
        proof {
            assert forall|y: Seq<char>|
                out@.contains(y) <==> self@.effect_names(node@).contains(y) by {
                if self@.effect_names(node@).contains(y) && !base@.contains(y) {
                    let x = choose|x: Seq<char>|
                        base@.contains(x) && #[trigger] aliases.contains_key(x)
                            && aliases[x].contains(y);
                    let j = all.index_of(x);
                    assert(all[j] == x);
                }
                if out@.contains(y) && !base@.contains(y) {
                    let j = choose|j: int|
                        0 <= j < i && aliases.contains_key(#[trigger] all[j])
                            && aliases[all[j]].contains(y);
                    assert(all.to_set().contains(all[j]));
                }
            }
            assert(out@ =~= self@.effect_names(node@));
        }
        out
    }

    /// The names that the children from `first` on may change.
    fn effect_identifiers_for_children(&self, node: &Node, first: usize) -> (r: Names)
        ensures
            r@ == self@.effect_names_all(children_from(node@, first as int)),
    {
        let ghost all = children_from(node@, first as int);
        let mut out = Names::new();
        let mut i: usize = first;
        while i < node.children.len()
            invariant
                first <= i,
                i <= node.children@.len() || i == first,
                all == children_from(node@, first as int),
                out@ == self@.effect_names_all(all.take(i - first)),
            decreases node.children@.len() - i,
        {
            proof {
                take_step(all, i - first);
                assert(all[i - first] == views(node.children@)[i as int]);
            }
            out.insert_all(&self.effect_identifiers_from_expression(&node.children[i]));
            i += 1;
        }
        proof {
            take_all(all);
        }
        out
    }

    fn resolve_imported_name(&self, name: &str) -> (r: String)
        ensures
            r@ == self@.imported(name@),
    {
        let first = head(name, "::");
        if let Some(target) = self.local_callable_origins.get(first.as_str()) {
            return continue_with(target.as_str(), name);
        }
        if self.bound_names.contains(first.as_str()) {
            return name.to_owned();
        }
        resolve_alias(name, &self.use_aliases)
    }

    fn is_from_clock(&self, facts: &ExprFacts) -> (r: bool)
        ensures
            r == self@.from_clock(facts@),
    {
        let list = facts.calls.as_vec();
        let ghost all = views(list@);
        let mut i: usize = 0;
        while i < list.len()
            invariant
                all == views(list@),
                all.to_set() == facts@.calls,
                i <= list@.len(),
                forall|j: int| 0 <= j < i ==> !clock_call(self@.imported(#[trigger] all[j])),
            decreases list@.len() - i,
        {
            if is_clock_call(self.resolve_imported_name(list[i].as_str()).as_str()) {
                assert(all.to_set().contains(all[i as int]));
                assert(facts@.calls.contains(all[i as int]));
                return true;
            }
            i += 1;
        }
        assert forall|call: Seq<char>| #[trigger] facts@.calls.contains(call) implies !clock_call(
            self@.imported(call),
        ) by {
            let k = all.index_of(call);
            assert(all[k] == call);
        }
        !facts.identifiers.is_disjoint(&self.uncontrolled_clock_outputs)
    }

    fn is_from_act(&self, facts: &ExprFacts) -> (r: bool)
        ensures
            r == self@.from_act(facts@),
    {
        !facts.identifiers.is_disjoint(&self.act_outputs) || !facts.identifiers.is_disjoint(
            &self.act_effects,
        )
    }
}

/// The name that an item in a block binds.
pub open spec fn binding_name(t: Tree) -> Option<Seq<char>> {
    match t.kind {
        Kind::Function
        | Kind::Module
        | Kind::TypeAlias
        | Kind::Constant
        | Kind::Data
        | Kind::Trait
        | Kind::CrateImport
        | Kind::MacroItem => if t.words.len() > 0 {
            Some(t.words[0])
        } else {
            None
        },
        _ => None,
    }
}

fn item_binding_name(node: &Node) -> (r: Option<String>)
    ensures
        option_view(r) == binding_name(node@),
{
    match node.kind {
        Kind::Function
        | Kind::Module
        | Kind::TypeAlias
        | Kind::Constant
        | Kind::Data
        | Kind::Trait
        | Kind::CrateImport
        | Kind::MacroItem => {
            if node.words.len() > 0 {
                Some(node.words[0].clone())
            } else {
                None
            }
        },
        _ => None,
    }
}

impl Facts {
    /// The facts with the names that an item of a block brings into scope.
    pub open spec fn with_item(self, item: Tree) -> Facts {
        if item.kind == Kind::Use {
            if item.children.len() > 0 {
                Facts {
                    use_aliases: with_imports(item.children[0], seq![], self.use_aliases),
                    ..self
                }
            } else {
                self
            }
        } else if item.kind == Kind::TypeAlias && alias_target(item) is Some {
            Facts { use_aliases: with_type_alias(item, self.use_aliases), ..self }
        } else {
            match binding_name(item) {
                Some(name) => Facts { bound_names: self.bound_names.insert(name), ..self },
                None => self,
            }
        }
    }

    /// The facts with the names of every item among the statements of a block.
    pub open spec fn with_items(self, statements: Seq<Tree>) -> Facts
        decreases statements.len(),
    {
        if statements.len() == 0 {
            self
        } else {
            let rest = self.with_items(statements.drop_last());
            let last = statements.last();
            if last.children.len() > 0 {
                rest.with_item(last.children[0])
            } else {
                rest
            }
        }
    }

    /// The facts with the scope of an earlier place.
    pub open spec fn with_scope_of(self, earlier: Facts) -> Facts {
        Facts {
            use_aliases: earlier.use_aliases,
            bound_names: earlier.bound_names,
            local_callable_origins: earlier.local_callable_origins,
            ..self
        }
    }

    pub open spec fn with_bound(self, names: Set<Seq<char>>) -> Facts {
        Facts { bound_names: self.bound_names.union(names), ..self }
    }

    /// What a `let` that gives `bound` the value of `init` tells.
    #[verifier::opaque]
    pub open spec fn with_initialized(
        self,
        c: ContextView,
        section: Section,
        span: SourceSpan,
        bound: Set<Seq<char>>,
        init: Tree,
    ) -> Facts {
        let facts = facts_of(init);
        self.with_shadowing(c, span, bound).with_reference_aliases(bound, init).with_origin(
            bound,
            facts,
        ).with_clock(bound, facts).with_act_value(c, section, bound, init)
    }

    pub open spec fn with_shadowing(
        self,
        c: ContextView,
        span: SourceSpan,
        bound: Set<Seq<char>>,
    ) -> Facts {
        if bound.disjoint(self.bound_names) {
            self
        } else {
            self.with_gap(
                c,
                "analysis.shadowed-binding"@,
                "local shadowing makes identifier-only causality ambiguous"@,
                span,
            )
        }
    }

    pub open spec fn with_reference_aliases(self, bound: Set<Seq<char>>, init: Tree) -> Facts {
        let sources = self.effect_names(init);
        if sources.is_empty() {
            self
        } else {
            Facts {
                mutable_reference_aliases: bound_to(
                    self.mutable_reference_aliases,
                    bound,
                    sources,
                ),
                ..self
            }
        }
    }

    /// The call that a value comes from.
    pub open spec fn origin(self, facts: ExprFactsView) -> Option<Seq<char>> {
        if facts.root_call is Some {
            facts.root_call
        } else {
            self.local_origin(facts.identifiers)
        }
    }

    pub open spec fn with_origin(self, bound: Set<Seq<char>>, facts: ExprFactsView) -> Facts {
        match self.origin(facts) {
            Some(origin) => Facts {
                local_origins: bound_to(self.local_origins, bound, origin),
                ..self
            },
            None => self,
        }
    }

    pub open spec fn with_clock(self, bound: Set<Seq<char>>, facts: ExprFactsView) -> Facts {
        if self.from_clock(facts) {
            Facts {
                uncontrolled_clock_outputs: self.uncontrolled_clock_outputs.union(bound),
                ..self
            }
        } else {
            self
        }
    }

    /// Whether it stays open if a value computed in the Act exercises the production
    /// code.
    pub open spec fn unresolved_computation(self, section: Section, value: Tree) -> bool {
        section == Section::Act && nontrivial(value) && calls_nothing(value) && !self.from_act(
            facts_of(value),
        )
    }

    pub open spec fn with_computation_gap(
        self,
        c: ContextView,
        section: Section,
        value: Tree,
    ) -> Facts {
        if self.unresolved_computation(section, value) {
            self.with_gap(
                c,
                "analysis.unresolved-act-computation"@,
                "cannot prove whether this non-call expression is the production behavior or Act-local plumbing"@,
                value.span,
            )
        } else {
            self
        }
    }

    pub open spec fn with_act_value(
        self,
        c: ContextView,
        section: Section,
        bound: Set<Seq<char>>,
        init: Tree,
    ) -> Facts {
        let facts = facts_of(init);
        let noted = self.with_computation_gap(c, section, init);
        if (section == Section::Act && (!calls_nothing(init) || self.from_act(facts))) || (
        !c.explicit() && !calls_nothing(init)) {
            Facts {
                act_outputs: noted.act_outputs.union(bound),
                act_output_spans: if section == Section::Act {
                    bound_to(noted.act_output_spans, bound, init.span)
                } else {
                    noted.act_output_spans
                },
                act_root_calls: match facts.root_call {
                    Some(call) => noted.act_root_calls.insert(call),
                    None => noted.act_root_calls,
                },
                ..noted
            }
        } else if !facts.identifiers.disjoint(self.act_outputs) {
            Facts { act_outputs: noted.act_outputs.union(bound), ..noted }
        } else {
            noted
        }
    }

    /// The facts after a `let`, once its value is visited: what its names now stand for.
    pub open spec fn with_local_bound(
        self,
        bound: Set<Seq<char>>,
        callable: Option<Seq<char>>,
    ) -> Facts {
        Facts {
            local_callable_origins: match callable {
                Some(name) => bound_to(self.local_callable_origins, bound, name),
                None => self.local_callable_origins,
            },
            bound_names: self.bound_names.union(bound),
            ..self
        }
    }

    /// What an assignment of `right` to `left` tells.
    #[verifier::opaque]
    pub open spec fn with_assignment(
        self,
        c: ContextView,
        section: Section,
        left: Tree,
        right: Tree,
    ) -> Facts {
        let names = names_in(left);
        let facts = facts_of(right);
        let acted = if section == Section::Act {
            let noted = self.with_computation_gap(c, section, right);
            if !calls_nothing(right) || self.from_act(facts) {
                Facts {
                    act_outputs: noted.act_outputs.union(names),
                    act_output_spans: bound_to(noted.act_output_spans, names, right.span),
                    act_root_calls: match facts.root_call {
                        Some(call) => noted.act_root_calls.insert(call),
                        None => noted.act_root_calls,
                    },
                    ..noted
                }
            } else {
                noted
            }
        } else if !facts.identifiers.disjoint(self.act_outputs) {
            Facts { act_outputs: self.act_outputs.union(names), ..self }
        } else {
            self
        };
        acted.with_clock(names, facts).with_origin(names, facts)
    }

    /// What a loop over `iterated` tells of the names of its pattern.
    #[verifier::opaque]
    pub open spec fn with_loop_pattern(self, c: ContextView, pattern: Tree, iterated: Tree) -> Facts {
        if names_in(iterated).disjoint(self.act_outputs) {
            self
        } else {
            Facts { act_outputs: self.act_outputs.union(bound_by(pattern)), ..self }.with_gap(
                c,
                "analysis.pattern-causality"@,
                "cannot prove causality through a loop pattern binding"@,
                pattern.span,
            )
        }
    }

    #[verifier::opaque]
    pub open spec fn with_compound_assignment(self, c: ContextView, t: Tree) -> Facts {
        if c.section(t.span) == Section::Act && compound_assignment(t) && t.children.len() > 0 {
            Facts { act_effects: self.act_effects.union(names_in(t.children[0])), ..self }.with_gap(
                c,
                "analysis.unresolved-act-computation"@,
                "cannot prove whether this compound assignment exercises production behavior or test-local arithmetic"@,
                t.span,
            )
        } else {
            self
        }
    }

    #[verifier::opaque]
    pub open spec fn with_match_oracle(self, c: ContextView, t: Tree) -> Facts {
        if c.oracle_section(t.span) && t.children.len() > 2 && some_arm_panics(t) {
            self.with_oracle(
                c,
                match_kind(t),
                t.span,
                t.text,
                facts_of(t.children[0]),
                no_facts(),
                false,
                false,
            )
        } else {
            self
        }
    }

    #[verifier::opaque]
    pub open spec fn with_if_oracle(self, c: ContextView, t: Tree) -> Facts {
        if c.section(t.span) == Section::Assert && t.children.len() > 1 && (panics(t.children[1])
            || (t.children.len() > 2 && panics(t.children[2]))) {
            self.with_oracle(
                c,
                OracleKind::Outcome,
                t.span,
                t.text,
                facts_of(t.children[0]),
                no_facts(),
                false,
                false,
            )
        } else {
            self
        }
    }

    #[verifier::opaque]
    pub open spec fn with_condition_pattern(self, c: ContextView, condition: Tree) -> Facts {
        if condition.kind == Kind::Let && condition.children.len() > 1 && self.from_act(
            facts_of(condition.children[1]),
        ) {
            self.with_gap(
                c,
                "analysis.pattern-causality"@,
                "cannot prove causality through a conditional pattern binding"@,
                condition.span,
            )
        } else {
            self
        }
    }

    pub open spec fn with_hygiene_call(self, c: ContextView, name: Seq<char>, t: Tree) -> Facts {
        let slept = if sleep_call(name) && !(self.virtual_time && name == "tokio::time::sleep"@)
            && !configured_matches(c.policy.controlled_time_functions, name)
            && fixed_duration_argument(t) {
            self.with_hygiene(c, HygieneKind::FixedSleep, name, t.span)
        } else {
            self
        };
        let timed = if clock_call(name) && !(self.virtual_time && name
            == "tokio::time::Instant::now"@) && !configured_matches(
            c.policy.controlled_time_functions,
            name,
        ) {
            slept.with_hygiene(c, HygieneKind::UncontrolledClock, name, t.span)
        } else {
            slept
        };
        let drawn = if random_call(name) && !configured_matches(
            c.policy.controlled_random_functions,
            name,
        ) {
            timed.with_hygiene(c, HygieneKind::UncontrolledRandom, name, t.span)
        } else {
            timed
        };
        if environment_call(name) && !configured_matches(
            c.policy.controlled_environment_functions,
            name,
        ) {
            drawn.with_hygiene(c, HygieneKind::ProcessEnvironment, name, t.span)
        } else {
            drawn
        }
    }

    /// What a call tells before its parts are visited.
    #[verifier::opaque]
    pub open spec fn with_function_call(self, c: ContextView, t: Tree) -> Facts {
        let source = source_name(t);
        let qualified = self.imported(source);
        let name = after_last(source, "::"@);
        let arguments = facts_of_all(children_from(t, 1));
        let interaction = configured_matches(c.policy.mock_interaction_methods, qualified);
        let assertion = configured_matches(c.policy.assertion_functions, qualified) || interaction;
        let globbed = if qualified == source && self.use_aliases.contains_key(
            GLOB_IMPORT_SENTINEL@,
        ) && !self.bound_names.contains(before_first(source, "::"@)) && glob_suspect(source) {
            self.with_gap(
                c,
                "analysis.unresolved-glob-import"@,
                "cannot determine whether `"@ + source
                    + "` resolves to a nondeterministic API imported through a glob"@,
                t.span,
            )
        } else {
            self
        };
        let judged = if assertion {
            globbed.with_oracle(
                c,
                if interaction {
                    OracleKind::Interaction
                } else {
                    OracleKind::Outcome
                },
                t.span,
                t.text,
                arguments,
                no_facts(),
                false,
                false,
            )
        } else if !self.inside_oracle && has_prefix(name, "should_"@) {
            globbed.with_gap(
                c,
                "analysis.unresolved-scenario-delegate"@,
                "scenario-like delegate `"@ + source + "` cannot be inspected here"@,
                t.span,
            )
        } else if !self.inside_oracle && (has_prefix(name, "assert_"@) || (c.section(t.span)
            == Section::Assert && assertion_helper(name))) {
            globbed.with_gap(
                c,
                "analysis.unresolved-assertion-helper"@,
                "assertion-like helper `"@ + qualified + "` is not configured"@,
                t.span,
            )
        } else {
            globbed
        };
        let clocked = Facts {
            virtual_time: if self.inside_oracle || self.conditional {
                judged.virtual_time
            } else if qualified == "tokio::time::pause"@ {
                true
            } else if qualified == "tokio::time::resume"@ {
                false
            } else {
                judged.virtual_time
            },
            ..judged
        };
        let checked = clocked.with_hygiene_call(c, qualified, t);
        Facts { inside_oracle: self.inside_oracle || assertion, ..checked }.with_call(
            c,
            CallFactView {
                name,
                qualified_name: qualified,
                span: t.span,
                section: c.section(t.span),
                receiver_identifiers: set![],
                argument_identifiers: arguments.identifiers,
            },
            checked.effect_names_all(children_from(t, 1)),
            shared_names_all(children_from(t, 1)),
        )
    }

    /// What a method call tells before its parts are visited.
    #[verifier::opaque]
    pub open spec fn with_method_call(self, c: ContextView, t: Tree) -> Facts {
        let name = method_of(t);
        let receiver = receiver_facts(t);
        let arguments = facts_of_all(children_from(t, 2));
        let interaction = configured_matches(c.policy.mock_interaction_methods, name);
        let assertion = configured_matches(c.policy.assertion_functions, name) || interaction;
        let judged = if assertion {
            self.with_oracle(
                c,
                if interaction {
                    OracleKind::Interaction
                } else {
                    OracleKind::Outcome
                },
                t.span,
                t.text,
                merged_facts(receiver, arguments),
                no_facts(),
                false,
                false,
            )
        } else if !self.inside_oracle && (has_prefix(name, "assert_"@) || (c.section(t.span)
            == Section::Assert && assertion_helper(name))) {
            self.with_gap(
                c,
                "analysis.unresolved-assertion-helper"@,
                "assertion-like method `"@ + name + "` is not configured"@,
                t.span,
            )
        } else if (name == "unwrap"@ || name == "expect"@) && c.oracle_section(t.span) {
            self.with_oracle(
                c,
                OracleKind::Execution,
                t.span,
                t.text,
                receiver,
                no_facts(),
                false,
                false,
            )
        } else if (name == "unwrap_err"@ || name == "expect_err"@) && c.oracle_section(t.span) {
            self.with_oracle(
                c,
                OracleKind::BroadError,
                t.span,
                t.text,
                receiver,
                no_facts(),
                false,
                false,
            )
        } else {
            self
        };
        Facts { inside_oracle: self.inside_oracle || assertion, ..judged }.with_call(
            c,
            CallFactView {
                name,
                qualified_name: name,
                span: t.span,
                section: c.section(t.span),
                receiver_identifiers: if t.children.len() > 0 {
                    receiver_names(t.children[0])
                } else {
                    set![]
                },
                argument_identifiers: arguments.identifiers,
            },
            (if t.children.len() > 0 {
                judged.effect_names(t.children[0])
            } else {
                set![]
            }).union(judged.effect_names_all(children_from(t, 2))),
            shared_names_all(children_from(t, 2)),
        )
    }

    #[verifier::opaque]
    pub open spec fn with_format_gap(self, c: ContextView, t: Tree) -> Facts {
        let last = after_last(path_name_of(t.words), "::"@);
        if self.inside_oracle && (last == "format"@ || last == "format_args"@) && implicit_capture(
            t,
        ) {
            self.with_gap(
                c,
                "analysis.implicit-format-capture"@,
                "cannot attribute identifiers captured implicitly by the format string"@,
                t.span,
            )
        } else {
            self
        }
    }

    #[verifier::opaque]
    pub open spec fn with_unknown_macro(self, c: ContextView, t: Tree) -> Facts {
        let name = path_name_of(t.words);
        if (c.section(t.span) == Section::Assert || has_prefix(
            after_last(name, "::"@),
            "assert"@,
        )) && !ordinary_macro(name) {
            self.with_gap(
                c,
                "analysis.unsupported-macro"@,
                "custom macro `"@ + name + "!` is not configured as an assertion"@,
                t.span,
            )
        } else {
            self
        }
    }

    /// What an assertion macro tells before its arguments are visited.
    #[verifier::opaque]
    pub open spec fn with_assertion(self, c: ContextView, t: Tree) -> Facts {
        let name = path_name_of(t.words);
        if t.arguments is Some && t.arguments->0.len() > 0 {
            let list = t.arguments->0;
            let last = after_last(name, "::"@);
            let noted = if doubtful_self_comparison(last, list) {
                self.with_gap(
                    c,
                    "analysis.possible-self-comparison"@,
                    "the assertion repeats an expression, but its equality semantics cannot be proven tautological"@,
                    t.span,
                )
            } else {
                self
            };
            noted.with_oracle(
                c,
                if broad_assertion(last, list) {
                    OracleKind::BroadError
                } else {
                    OracleKind::Outcome
                },
                t.span,
                t.text,
                facts_of(list[0]),
                if last == "assert_matches"@ || list.len() < 2 {
                    no_facts()
                } else {
                    facts_of(list[1])
                },
                equality_macro(last),
                tautological_assertion(last, list),
            )
        } else {
            self.with_gap(
                c,
                "analysis.partially-parsed-assertion"@,
                "arguments to `"@ + name + "!` could not be fully parsed"@,
                t.span,
            ).with_oracle(
                c,
                OracleKind::Outcome,
                t.span,
                t.text,
                ExprFactsView {
                    identifiers: token_names_all(t.tokens),
                    calls: set![],
                    root_call: None,
                },
                no_facts(),
                false,
                false,
            )
        }
    }

    #[verifier::opaque]
    pub open spec fn with_try(self, c: ContextView, t: Tree) -> Facts {
        let section = c.section(t.span);
        if (section == Section::Act || section == Section::Assert || !c.explicit())
            && t.children.len() > 0 {
            self.with_oracle(
                c,
                OracleKind::Execution,
                t.span,
                t.text,
                facts_of(t.children[0]),
                no_facts(),
                false,
                false,
            )
        } else {
            self
        }
    }

    #[verifier::opaque]
    pub open spec fn with_return(self, c: ContextView, t: Tree) -> Facts {
        if c.observable_return && t.children.len() > 0 && c.oracle_section(t.span)
            && !unconditional_success(t.children[0]) {
            self.with_oracle(
                c,
                OracleKind::Execution,
                t.span,
                t.text,
                facts_of(t.children[0]),
                no_facts(),
                false,
                false,
            )
        } else {
            self
        }
    }
}

pub open spec fn calls_nothing(value: Tree) -> bool {
    facts_of(value).calls.is_empty()
}

/// The name of a called function as written.
pub open spec fn source_name(t: Tree) -> Seq<char> {
    if t.children.len() > 0 && callable_name_of(t.children[0]) is Some {
        callable_name_of(t.children[0])->0
    } else {
        "<dynamic-call>"@
    }
}

pub open spec fn receiver_facts(t: Tree) -> ExprFactsView {
    if t.children.len() > 0 {
        facts_of(t.children[0])
    } else {
        no_facts()
    }
}

/// The macros that assert one condition.
pub open spec fn condition_macro(last: Seq<char>) -> bool {
    last == "assert"@ || last == "debug_assert"@ || last == "prop_assert"@
}

/// The macros that assert that two values are equal.
pub open spec fn equality_macro(last: Seq<char>) -> bool {
    last == "assert_eq"@ || last == "debug_assert_eq"@ || last == "prop_assert_eq"@
}

pub open spec fn repeats_expression(last: Seq<char>, list: Seq<Tree>) -> bool {
    equality_macro(last) && list.len() > 1 && list[0].text == list[1].text
}

pub open spec fn proven_self_comparison(last: Seq<char>, list: Seq<Tree>) -> bool {
    repeats_expression(last, list) && reflexive(list[0]) && reflexive(list[1])
}

pub open spec fn doubtful_self_comparison(last: Seq<char>, list: Seq<Tree>) -> bool {
    (repeats_expression(last, list) && simple_value(list[0]) && !proven_self_comparison(last, list))
        || (condition_macro(last) && possible_self_comparison(list[0]))
}

/// Whether an assertion cannot fail.
pub open spec fn tautological_assertion(last: Seq<char>, list: Seq<Tree>) -> bool {
    proven_self_comparison(last, list) || (condition_macro(last) && self_comparison(list[0])) || (
    condition_macro(last) && always_true(list[0]))
}

/// Whether an assertion checks only that there is an error.
pub open spec fn broad_assertion(last: Seq<char>, list: Seq<Tree>) -> bool {
    ||| condition_macro(last) && broad_error_check(list[0])
    ||| equality_macro(last) && list.len() > 1 && ((broad_error_check(list[0]) && true_literal(
        list[1],
    )) || (true_literal(list[0]) && broad_error_check(list[1])))
    ||| last == "assert_matches"@ && list.len() > 1 && broad_error_pattern_expr(list[1])
}

/// The names that the pattern of an `if let` or `while let` binds.
pub open spec fn condition_names(condition: Tree) -> Set<Seq<char>> {
    if condition.kind == Kind::Let && condition.children.len() > 0 {
        bound_by(condition.children[0])
    } else {
        set![]
    }
}

/// The names that the inputs of a closure bind.
pub open spec fn closure_names(t: Tree, count: int) -> Set<Seq<char>>
    decreases count,
{
    if count <= 0 || count >= t.children.len() {
        set![]
    } else {
        closure_names(t, count - 1).union(bound_by(t.children[count]))
    }
}

/// The facts after the attributes and the children of a node are visited.
pub open spec fn visited_parts(c: ContextView, s: Facts, t: Tree) -> Facts
    decreases t, 0nat,
{
    visited_all(c, visited_all(c, s, t.attributes), t.children)
}

pub open spec fn visited_block(c: ContextView, s: Facts, t: Tree) -> Facts
    decreases t, 1nat,
{
    visited_all(c, s.with_items(t.children), t.children).with_scope_of(s)
}

pub open spec fn visited_statement(c: ContextView, s: Facts, t: Tree) -> Facts
    decreases t, 1nat,
{
    visited_parts(
        c,
        Facts { section_statements: s.section_statements.plus_one(c.section(t.span)), ..s },
        t,
    )
}

/// The names that a `let` binds.
pub open spec fn local_names(t: Tree) -> Set<Seq<char>> {
    if t.children.len() > 0 {
        bound_by(t.children[0])
    } else {
        set![]
    }
}

/// The function that a `let` gives a new name to.
pub open spec fn local_callable(s: Facts, t: Tree) -> Option<Seq<char>> {
    if t.flag && t.children.len() > 1 {
        match callable_path_of(t.children[1]) {
            Some(path) => Some(s.imported(path)),
            None => None,
        }
    } else {
        None
    }
}

pub open spec fn visited_local(c: ContextView, s: Facts, t: Tree) -> Facts
    decreases t, 1nat,
{
    let known = if t.flag && t.children.len() > 1 {
        s.with_initialized(c, c.section(t.span), t.span, local_names(t), t.children[1])
    } else {
        s
    };
    let outer = visited_parts(
        c,
        Facts { current_binding_identifiers: local_names(t), ..known },
        t,
    );
    Facts {
        current_binding_identifiers: s.current_binding_identifiers,
        ..outer
    }.with_local_bound(local_names(t), local_callable(s, t))
}

pub open spec fn visited_for_loop(c: ContextView, s: Facts, t: Tree) -> Facts
    decreases t, 1nat,
{
    if t.children.len() > 2 {
        let start = Facts {
            conditional: true,
            ..s.with_loop_pattern(c, t.children[0], t.children[1])
        };
        let headed = visited(c, start, t.children[1]);
        let body = visited(c, headed.with_bound(bound_by(t.children[0])), t.children[2]);
        Facts { bound_names: headed.bound_names, conditional: s.conditional, ..body }
    } else {
        s
    }
}

pub open spec fn visited_arm(c: ContextView, s: Facts, t: Tree) -> Facts
    decreases t, 1nat,
{
    let inner = visited_parts(c, s.with_bound(local_names(t)), t);
    Facts { bound_names: s.bound_names, ..inner }
}

pub open spec fn visited_assign(c: ContextView, s: Facts, t: Tree) -> Facts
    decreases t, 1nat,
{
    if t.children.len() > 1 {
        let known = Facts {
            current_binding_identifiers: names_in(t.children[0]),
            ..s.with_assignment(c, c.section(t.span), t.children[0], t.children[1])
        };
        let inner = visited_parts(c, known, t);
        Facts { current_binding_identifiers: s.current_binding_identifiers, ..inner }
    } else {
        s
    }
}

/// What is visited may not execute.
pub open spec fn visited_branch(c: ContextView, s: Facts, noted: Facts, t: Tree) -> Facts
    decreases t, 1nat,
{
    let inner = visited_parts(c, Facts { conditional: true, ..noted }, t);
    Facts { conditional: s.conditional, ..inner }
}

/// The facts after the condition and the block of an `if`.
pub open spec fn visited_then(c: ContextView, s: Facts, t: Tree) -> Facts
    decreases t, 0nat,
{
    if t.children.len() > 1 {
        let tested = visited(c, s, t.children[0]);
        let then = visited(
            c,
            tested.with_bound(condition_names(t.children[0])),
            t.children[1],
        );
        Facts { bound_names: tested.bound_names, ..then }
    } else {
        s
    }
}

pub open spec fn visited_if(c: ContextView, s: Facts, t: Tree) -> Facts
    decreases t, 1nat,
{
    if t.children.len() > 1 {
        let start = Facts {
            conditional: true,
            ..s.with_if_oracle(c, t).with_condition_pattern(c, t.children[0])
        };
        let back = visited_then(c, start, t);
        let end = if t.children.len() > 2 {
            visited(c, back, t.children[2])
        } else {
            back
        };
        Facts { conditional: s.conditional, ..end }
    } else {
        s
    }
}

pub open spec fn visited_closure(c: ContextView, s: Facts, t: Tree) -> Facts
    decreases t, 1nat,
{
    let start = Facts { conditional: true, ..s }.with_bound(closure_names(t, t.inputs as int));
    let inner = visited_parts(c, start, t);
    Facts { bound_names: s.bound_names, conditional: s.conditional, ..inner }
}

pub open spec fn visited_while(c: ContextView, s: Facts, t: Tree) -> Facts
    decreases t, 1nat,
{
    if t.children.len() > 1 {
        let tested = visited(c, Facts { conditional: true, ..s }, t.children[0]);
        let body = visited(
            c,
            tested.with_bound(condition_names(t.children[0])),
            t.children[1],
        );
        Facts { bound_names: tested.bound_names, conditional: s.conditional, ..body }
    } else {
        s
    }
}

/// The parts of a call are visited as those of an oracle where the call is one.
pub open spec fn visited_call(c: ContextView, s: Facts, noted: Facts, t: Tree) -> Facts
    decreases t, 1nat,
{
    let inner = visited_parts(c, noted, t);
    Facts { inside_oracle: s.inside_oracle, ..inner }
}

pub open spec fn visited_macro(c: ContextView, s: Facts, t: Tree) -> Facts
    decreases t, 1nat,
{
    let noted = s.with_format_gap(c, t);
    if configured_matches(c.policy.assertion_macros, path_name_of(t.words)) {
        let start = Facts { inside_oracle: true, ..noted.with_assertion(c, t) };
        let inner = match t.arguments {
            Some(list) => visited_all(c, start, list),
            None => start,
        };
        Facts { inside_oracle: s.inside_oracle, ..inner }
    } else {
        visited_all(c, noted.with_unknown_macro(c, t), t.children)
    }
}

/// The facts after a piece of syntax is visited.
pub open spec fn visited(c: ContextView, s: Facts, t: Tree) -> Facts
    decreases t, 2nat,
{
    match t.kind {
        Kind::Block => visited_block(c, s, t),
        Kind::Statement => visited_statement(c, s, t),
        Kind::Local => visited_local(c, s, t),
        Kind::ForLoop => visited_for_loop(c, s, t),
        Kind::Arm => visited_arm(c, s, t),
        Kind::Assign => visited_assign(c, s, t),
        Kind::Binary => visited_parts(c, s.with_compound_assignment(c, t), t),
        Kind::Match => visited_branch(c, s, s.with_match_oracle(c, t), t),
        Kind::If => visited_if(c, s, t),
        Kind::Closure => visited_closure(c, s, t),
        Kind::Async | Kind::Loop => visited_branch(c, s, s, t),
        Kind::While => visited_while(c, s, t),
        Kind::Call => visited_call(c, s, s.with_function_call(c, t), t),
        Kind::MethodCall => visited_call(c, s, s.with_method_call(c, t), t),
        Kind::Macro => visited_macro(c, s, t),
        Kind::Try => visited_parts(c, s.with_try(c, t), t),
        Kind::Return => visited_parts(c, s.with_return(c, t), t),
        _ => visited_parts(c, s, t),
    }
}

/// The facts after several pieces of syntax are visited in order.
pub open spec fn visited_all(c: ContextView, s: Facts, ts: Seq<Tree>) -> Facts
    decreases ts, 0nat,
{
    if ts.len() == 0 {
        s
    } else {
        visited(c, visited_all(c, s, ts.drop_last()), ts.last())
    }
}

fn called_name(node: &Node) -> (r: String)
    ensures
        r@ == source_name(node@),
{
    if node.children.len() > 0 {
        if let Some(name) = callable_name(&node.children[0]) {
            return name;
        }
    }
    "<dynamic-call>".to_owned()
}

fn facts_of_receiver(node: &Node) -> (r: ExprFacts)
    ensures
        r@ == receiver_facts(node@),
{
    if node.children.len() > 0 {
        expression_facts(&node.children[0])
    } else {
        ExprFacts::none()
    }
}

fn is_condition_macro(last: &str) -> (r: bool)
    ensures
        r == condition_macro(last@),
{
    same(last, "assert") || same(last, "debug_assert") || same(last, "prop_assert")
}

fn is_equality_macro(last: &str) -> (r: bool)
    ensures
        r == equality_macro(last@),
{
    same(last, "assert_eq") || same(last, "debug_assert_eq") || same(last, "prop_assert_eq")
}

fn repeats(last: &str, list: &Vec<Node>) -> (r: bool)
    requires
        list@.len() > 0,
    ensures
        r == repeats_expression(last@, views(list@)),
{
    is_equality_macro(last) && list.len() > 1 && same(list[0].text.as_str(), list[1].text.as_str())
}

fn is_proven_self_comparison(last: &str, list: &Vec<Node>) -> (r: bool)
    requires
        list@.len() > 0,
    ensures
        r == proven_self_comparison(last@, views(list@)),
{
    repeats(last, list) && is_provably_reflexive_expression(&list[0])
        && is_provably_reflexive_expression(&list[1])
}

fn is_doubtful_self_comparison(last: &str, list: &Vec<Node>) -> (r: bool)
    requires
        list@.len() > 0,
    ensures
        r == doubtful_self_comparison(last@, views(list@)),
{
    (repeats(last, list) && is_simple_value_expression(&list[0]) && !is_proven_self_comparison(
        last,
        list,
    )) || (is_condition_macro(last) && is_possible_self_comparison(&list[0]))
}

fn is_tautological_assertion(last: &str, list: &Vec<Node>) -> (r: bool)
    requires
        list@.len() > 0,
    ensures
        r == tautological_assertion(last@, views(list@)),
{
    is_proven_self_comparison(last, list) || (is_condition_macro(last) && is_self_comparison(
        &list[0],
    )) || (is_condition_macro(last) && expression_is_always_true(&list[0]))
}

fn is_broad_assertion(last: &str, list: &Vec<Node>) -> (r: bool)
    requires
        list@.len() > 0,
    ensures
        r == broad_assertion(last@, views(list@)),
{
    (is_condition_macro(last) && contains_broad_error_check(&list[0])) || (is_equality_macro(last)
        && list.len() > 1 && ((contains_broad_error_check(&list[0]) && is_true_literal(&list[1]))
        || (is_true_literal(&list[0]) && contains_broad_error_check(&list[1])))) || (same(
        last,
        "assert_matches",
    ) && list.len() > 1 && is_broad_err_pattern_expression(&list[1]))
}

fn names_of_pattern(node: &Node) -> (r: Names)
    ensures
        r@ == bound_by(node@),
{
    let mut names = Names::new();
    identifiers_from_pattern(node, &mut names);
    assert(names@ =~= bound_by(node@));
    names
}

fn names_of_local(node: &Node) -> (r: Names)
    ensures
        r@ == local_names(node@),
{
    if node.children.len() > 0 {
        names_of_pattern(&node.children[0])
    } else {
        Names::new()
    }
}

fn names_of_condition(node: &Node) -> (r: Names)
    ensures
        r@ == condition_names(node@),
{
    if node.kind == Kind::Let && node.children.len() > 0 {
        names_of_pattern(&node.children[0])
    } else {
        Names::new()
    }
}

fn names_of_closure(node: &Node, count: usize) -> (r: Names)
    ensures
        r@ == closure_names(node@, count as int),
    decreases count,
{
    if count == 0 || count >= node.children.len() {
        Names::new()
    } else {
        let mut names = names_of_closure(node, count - 1);
        names.insert_all(&names_of_pattern(&node.children[count]));
        names
    }
}

impl FactVisitor {
    fn declare_item(&mut self, item: &Node)
        ensures
            final(self)@ == old(self)@.with_item(item@),
    {
        if item.kind == Kind::Use {
            if item.children.len() > 0 {
                let prefix: Vec<String> = Vec::new();
                assert(views(prefix@) =~= seq![]);
                collect_use_tree(&item.children[0], &prefix, &mut self.use_aliases);
            }
            return ;
        }
        if item.kind == Kind::TypeAlias {
            if collect_type_alias(item, &mut self.use_aliases) {
                return ;
            }
        }
        if let Some(name) = item_binding_name(item) {
            self.bound_names.insert(name);
        }
    }

    fn declare_items(&mut self, block: &Node)
        ensures
            final(self)@ == old(self)@.with_items(block@.children),
    {
        let ghost all = block@.children;
        let mut i: usize = 0;
        while i < block.children.len()
            invariant
                all == views(block.children@),
                i <= block.children@.len(),
                self@ == old(self)@.with_items(all.take(i as int)),
            decreases block.children@.len() - i,
        {
            proof {
                take_step(all, i as int);
            }
            let statement = &block.children[i];
            if statement.children.len() > 0 {
                self.declare_item(&statement.children[0]);
            }
            i += 1;
        }
        proof {
            take_all(all);
        }
    }

    fn note_shadowing(&mut self, c: &Context, span: SourceSpan, bound: &Names)
        ensures
            final(self)@ == old(self)@.with_shadowing(c@, span, bound@),
    {
        if !bound.is_disjoint(&self.bound_names) {
            self.gap(
                c,
                "analysis.shadowed-binding",
                "local shadowing makes identifier-only causality ambiguous",
                span,
            );
        }
    }

    fn note_reference_aliases(&mut self, bound: &Names, init: &Node)
        ensures
            final(self)@ == old(self)@.with_reference_aliases(bound@, init@),
    {
        let sources = self.effect_identifiers_from_expression(init);
        if !sources.is_empty() {
            self.mutable_reference_aliases.insert_for_all(bound, &sources);
        }
    }

    fn note_origin(&mut self, bound: &Names, facts: &ExprFacts)
        ensures
            final(self)@ == old(self)@.with_origin(bound@, facts@),
    {
        let origin = if facts.root_call.is_some() {
            copy_option(&facts.root_call)
        } else {
            self.local_origin(&facts.identifiers)
        };
        if let Some(origin) = origin {
            self.local_origins.insert_for_all(bound, &origin);
        }
    }

    fn note_clock(&mut self, bound: &Names, facts: &ExprFacts)
        ensures
            final(self)@ == old(self)@.with_clock(bound@, facts@),
    {
        if self.is_from_clock(facts) {
            self.uncontrolled_clock_outputs.insert_all(bound);
        }
    }

    fn note_computation(&mut self, c: &Context, section: Section, value: &Node, facts: &ExprFacts)
        requires
            facts@ == facts_of(value@),
        ensures
            final(self)@ == old(self)@.with_computation_gap(c@, section, value@),
    {
        if section == Section::Act && is_nontrivial_act_expression(value) && facts.calls.is_empty()
            && !self.is_from_act(facts) {
            self.gap(
                c,
                "analysis.unresolved-act-computation",
                "cannot prove whether this non-call expression is the production behavior or Act-local plumbing",
                value.span,
            );
        }
    }

    fn note_root_call(&mut self, facts: &ExprFacts)
        ensures
            final(self)@ == (Facts {
                act_root_calls: match facts@.root_call {
                    Some(call) => old(self)@.act_root_calls.insert(call),
                    None => old(self)@.act_root_calls,
                },
                ..old(self)@
            }),
    {
        if let Some(call) = &facts.root_call {
            self.act_root_calls.insert(call.clone());
        }
    }

    fn note_act_value(
        &mut self,
        c: &Context,
        section: Section,
        bound: &Names,
        init: &Node,
        facts: &ExprFacts,
    )
        requires
            facts@ == facts_of(init@),
        ensures
            final(self)@ == old(self)@.with_act_value(c@, section, bound@, init@),
    {
        let derived = self.is_from_act(facts);
        let observed = !facts.identifiers.is_disjoint(&self.act_outputs);
        self.note_computation(c, section, init, facts);
        if (section == Section::Act && (!facts.calls.is_empty() || derived)) || (!c.explicit()
            && !facts.calls.is_empty()) {
            self.act_outputs.insert_all(bound);
            if section == Section::Act {
                self.act_output_spans.insert_for_all(bound, &init.span);
            }
            self.note_root_call(facts);
        } else if observed {
            self.act_outputs.insert_all(bound);
        }
    }

    fn note_initialized(
        &mut self,
        c: &Context,
        section: Section,
        span: SourceSpan,
        bound: &Names,
        init: &Node,
    )
        ensures
            final(self)@ == old(self)@.with_initialized(c@, section, span, bound@, init@),
    {
        reveal(Facts::with_initialized);
        let facts = expression_facts(init);
        self.note_shadowing(c, span, bound);
        self.note_reference_aliases(bound, init);
        self.note_origin(bound, &facts);
        self.note_clock(bound, &facts);
        self.note_act_value(c, section, bound, init, &facts);
    }

    fn note_assignment(&mut self, c: &Context, section: Section, left: &Node, right: &Node)
        ensures
            final(self)@ == old(self)@.with_assignment(c@, section, left@, right@),
    {
        reveal(Facts::with_assignment);
        let names = expression_facts(left).identifiers;
        let facts = expression_facts(right);
        let derived = self.is_from_act(&facts);
        if section == Section::Act {
            self.note_computation(c, section, right, &facts);
            if !facts.calls.is_empty() || derived {
                self.act_outputs.insert_all(&names);
                self.act_output_spans.insert_for_all(&names, &right.span);
                self.note_root_call(&facts);
            }
        } else if !facts.identifiers.is_disjoint(&self.act_outputs) {
            self.act_outputs.insert_all(&names);
        }
        self.note_clock(&names, &facts);
        self.note_origin(&names, &facts);
    }

    fn note_loop_pattern(&mut self, c: &Context, pattern: &Node, iterated: &Node)
        ensures
            final(self)@ == old(self)@.with_loop_pattern(c@, pattern@, iterated@),
    {
        reveal(Facts::with_loop_pattern);
        if !expression_facts(iterated).identifiers.is_disjoint(&self.act_outputs) {
            self.act_outputs.insert_all(&names_of_pattern(pattern));
            self.gap(
                c,
                "analysis.pattern-causality",
                "cannot prove causality through a loop pattern binding",
                pattern.span,
            );
        }
    }

    fn note_compound_assignment(&mut self, c: &Context, node: &Node)
        ensures
            final(self)@ == old(self)@.with_compound_assignment(c@, node@),
    {
        reveal(Facts::with_compound_assignment);
        if c.section(node.span) == Section::Act && is_compound_assignment(node)
            && node.children.len() > 0 {
            self.act_effects.insert_all(&expression_facts(&node.children[0]).identifiers);
            self.gap(
                c,
                "analysis.unresolved-act-computation",
                "cannot prove whether this compound assignment exercises production behavior or test-local arithmetic",
                node.span,
            );
        }
    }

    fn note_match(&mut self, c: &Context, node: &Node)
        ensures
            final(self)@ == old(self)@.with_match_oracle(c@, node@),
    {
        reveal(Facts::with_match_oracle);
        if c.is_oracle_section(node.span) && node.children.len() > 2 && any_arm_panics(node) {
            let kind = classify_assert_match(node);
            self.record_oracle(
                c,
                kind,
                node.span,
                node.text.as_str(),
                expression_facts(&node.children[0]),
                ExprFacts::none(),
                false,
                false,
            );
        }
    }

    fn note_if(&mut self, c: &Context, node: &Node)
        ensures
            final(self)@ == old(self)@.with_if_oracle(c@, node@),
    {
        reveal(Facts::with_if_oracle);
        if c.section(node.span) == Section::Assert && node.children.len() > 1 && (contains_panic(
            &node.children[1],
        ) || (node.children.len() > 2 && contains_panic(&node.children[2]))) {
            self.record_oracle(
                c,
                OracleKind::Outcome,
                node.span,
                node.text.as_str(),
                expression_facts(&node.children[0]),
                ExprFacts::none(),
                false,
                false,
            );
        }
    }

    fn note_condition(&mut self, c: &Context, condition: &Node)
        ensures
            final(self)@ == old(self)@.with_condition_pattern(c@, condition@),
    {
        reveal(Facts::with_condition_pattern);
        if condition.kind == Kind::Let && condition.children.len() > 1 {
            let facts = expression_facts(&condition.children[1]);
            if self.is_from_act(&facts) {
                self.gap(
                    c,
                    "analysis.pattern-causality",
                    "cannot prove causality through a conditional pattern binding",
                    condition.span,
                );
            }
        }
    }

    fn detect_hygiene_call(&mut self, c: &Context, name: &str, node: &Node)
        ensures
            final(self)@ == old(self)@.with_hygiene_call(c@, name@, node@),
    {
        if is_fixed_sleep_call(name) && !(self.virtual_time && same(name, "tokio::time::sleep"))
            && !c.policy.is_controlled_time(name) && fixed_duration(node) {
            self.record_hygiene(c, HygieneKind::FixedSleep, name, node.span);
        }
        if is_clock_call(name) && !(self.virtual_time && same(name, "tokio::time::Instant::now"))
            && !c.policy.is_controlled_time(name) {
            self.record_hygiene(c, HygieneKind::UncontrolledClock, name, node.span);
        }
        if is_random_call(name) && !c.policy.is_controlled_random(name) {
            self.record_hygiene(c, HygieneKind::UncontrolledRandom, name, node.span);
        }
        if is_environment_mutation(name) && !c.policy.is_controlled_environment(name) {
            self.record_hygiene(c, HygieneKind::ProcessEnvironment, name, node.span);
        }
    }

    fn note_function_call(&mut self, c: &Context, node: &Node)
        ensures
            final(self)@ == old(self)@.with_function_call(c@, node@),
    {
        reveal(Facts::with_function_call);
        let source = called_name(node);
        let qualified = self.resolve_imported_name(source.as_str());
        let name = last_part(source.as_str(), "::");
        let arguments = facts_for_children(node, 1);
        let interaction = c.policy.matches_mock_interaction(qualified.as_str());
        let assertion = c.policy.matches_assertion_function(qualified.as_str()) || interaction;
        let was_inside = self.inside_oracle;
        let was_conditional = self.conditional;
        let names = arguments.identifiers.copied();
        if same(qualified.as_str(), source.as_str()) && self.use_aliases.contains_key(
            GLOB_IMPORT_SENTINEL,
        ) && !self.bound_names.contains(head(source.as_str(), "::").as_str())
            && may_be_hygiene_call_from_glob(source.as_str()) {
            let mut message = "cannot determine whether `".to_owned();
            message.append(source.as_str());
            message.append("` resolves to a nondeterministic API imported through a glob");
            self.gap(c, "analysis.unresolved-glob-import", message.as_str(), node.span);
        }
        if assertion {
            self.record_oracle(
                c,
                if interaction {
                    OracleKind::Interaction
                } else {
                    OracleKind::Outcome
                },
                node.span,
                node.text.as_str(),
                arguments,
                ExprFacts::none(),
                false,
                false,
            );
        } else if !was_inside && starts_with(name.as_str(), "should_") {
            let mut message = "scenario-like delegate `".to_owned();
            message.append(source.as_str());
            message.append("` cannot be inspected here");
            self.gap(c, "analysis.unresolved-scenario-delegate", message.as_str(), node.span);
        } else if !was_inside && (starts_with(name.as_str(), "assert_") || (c.section(node.span)
            == Section::Assert && looks_like_assertion_helper(name.as_str()))) {
            let mut message = "assertion-like helper `".to_owned();
            message.append(qualified.as_str());
            message.append("` is not configured");
            self.gap(c, "analysis.unresolved-assertion-helper", message.as_str(), node.span);
        }
        if !was_inside && !was_conditional {
            if same(qualified.as_str(), "tokio::time::pause") {
                self.virtual_time = true;
            } else if same(qualified.as_str(), "tokio::time::resume") {
                self.virtual_time = false;
            }
        }
        self.detect_hygiene_call(c, qualified.as_str(), node);
        let mutable = self.effect_identifiers_for_children(node, 1);
        let shared = shared_references_of_children(node, 1);
        if assertion {
            self.inside_oracle = true;
        }
        let call = CallFact {
            name,
            qualified_name: qualified,
            span: node.span,
            section: c.section(node.span),
            receiver_identifiers: Names::new(),
            argument_identifiers: names,
        };
        self.record_call(c, call, &mutable, &shared);
    }

    fn note_method_call(&mut self, c: &Context, node: &Node)
        ensures
            final(self)@ == old(self)@.with_method_call(c@, node@),
    {
        reveal(Facts::with_method_call);
        let name = method_name(node);
        let receiver = facts_of_receiver(node);
        let arguments = facts_for_children(node, 2);
        let interaction = c.policy.matches_mock_interaction(name.as_str());
        let assertion = c.policy.matches_assertion_function(name.as_str()) || interaction;
        let was_inside = self.inside_oracle;
        let names = arguments.identifiers.copied();
        if assertion {
            let mut actual = receiver;
            actual.merge(&arguments);
            self.record_oracle(
                c,
                if interaction {
                    OracleKind::Interaction
                } else {
                    OracleKind::Outcome
                },
                node.span,
                node.text.as_str(),
                actual,
                ExprFacts::none(),
                false,
                false,
            );
        } else if !was_inside && (starts_with(name.as_str(), "assert_") || (c.section(node.span)
            == Section::Assert && looks_like_assertion_helper(name.as_str()))) {
            let mut message = "assertion-like method `".to_owned();
            message.append(name.as_str());
            message.append("` is not configured");
            self.gap(c, "analysis.unresolved-assertion-helper", message.as_str(), node.span);
        } else if (same(name.as_str(), "unwrap") || same(name.as_str(), "expect"))
            && c.is_oracle_section(node.span) {
            self.record_oracle(
                c,
                OracleKind::Execution,
                node.span,
                node.text.as_str(),
                receiver,
                ExprFacts::none(),
                false,
                false,
            );
        } else if (same(name.as_str(), "unwrap_err") || same(name.as_str(), "expect_err"))
            && c.is_oracle_section(node.span) {
            self.record_oracle(
                c,
                OracleKind::BroadError,
                node.span,
                node.text.as_str(),
                receiver,
                ExprFacts::none(),
                false,
                false,
            );
        }
        let mut mutable = if node.children.len() > 0 {
            self.effect_identifiers_from_expression(&node.children[0])
        } else {
            Names::new()
        };
        mutable.insert_all(&self.effect_identifiers_for_children(node, 2));
        let shared = shared_references_of_children(node, 2);
        let receivers = if node.children.len() > 0 {
            direct_receiver_identifiers(&node.children[0])
        } else {
            Names::new()
        };
        if assertion {
            self.inside_oracle = true;
        }
        let call = CallFact {
            name: name.clone(),
            qualified_name: name,
            span: node.span,
            section: c.section(node.span),
            receiver_identifiers: receivers,
            argument_identifiers: names,
        };
        self.record_call(c, call, &mutable, &shared);
    }

    fn note_format(&mut self, c: &Context, node: &Node)
        ensures
            final(self)@ == old(self)@.with_format_gap(c@, node@),
    {
        reveal(Facts::with_format_gap);
        let name = path_name(node);
        let last = last_part(name.as_str(), "::");
        if self.inside_oracle && (same(last.as_str(), "format") || same(
            last.as_str(),
            "format_args",
        )) && has_implicit_format_capture(node) {
            self.gap(
                c,
                "analysis.implicit-format-capture",
                "cannot attribute identifiers captured implicitly by the format string",
                node.span,
            );
        }
    }

    fn note_unknown_macro(&mut self, c: &Context, node: &Node)
        ensures
            final(self)@ == old(self)@.with_unknown_macro(c@, node@),
    {
        reveal(Facts::with_unknown_macro);
        let name = path_name(node);
        let last = last_part(name.as_str(), "::");
        if (c.section(node.span) == Section::Assert || starts_with(last.as_str(), "assert"))
            && !known_non_assertion_macro(name.as_str()) {
            let mut message = "custom macro `".to_owned();
            message.append(name.as_str());
            message.append("!` is not configured as an assertion");
            self.gap(c, "analysis.unsupported-macro", message.as_str(), node.span);
        }
    }

    fn analyze_assertion_macro(&mut self, c: &Context, node: &Node)
        ensures
            final(self)@ == old(self)@.with_assertion(c@, node@),
    {
        reveal(Facts::with_assertion);
        let name = path_name(node);
        if let Some(list) = &node.arguments {
            if list.len() > 0 {
                let last_name = last_part(name.as_str(), "::");
                let last = last_name.as_str();
                if is_doubtful_self_comparison(last, list) {
                    self.gap(
                        c,
                        "analysis.possible-self-comparison",
                        "the assertion repeats an expression, but its equality semantics cannot be proven tautological",
                        node.span,
                    );
                }
                let expected = if same(last, "assert_matches") || list.len() < 2 {
                    ExprFacts::none()
                } else {
                    expression_facts(&list[1])
                };
                self.record_oracle(
                    c,
                    if is_broad_assertion(last, list) {
                        OracleKind::BroadError
                    } else {
                        OracleKind::Outcome
                    },
                    node.span,
                    node.text.as_str(),
                    expression_facts(&list[0]),
                    expected,
                    is_equality_macro(last),
                    is_tautological_assertion(last, list),
                );
                return ;
            }
        }
        let mut message = "arguments to `".to_owned();
        message.append(name.as_str());
        message.append("!` could not be fully parsed");
        self.gap(c, "analysis.partially-parsed-assertion", message.as_str(), node.span);
        self.record_oracle(
            c,
            OracleKind::Outcome,
            node.span,
            node.text.as_str(),
            ExprFacts {
                identifiers: token_identifiers(node),
                calls: Names::new(),
                root_call: None,
            },
            ExprFacts::none(),
            false,
            false,
        );
    }

    fn note_try(&mut self, c: &Context, node: &Node)
        ensures
            final(self)@ == old(self)@.with_try(c@, node@),
    {
        reveal(Facts::with_try);
        let section = c.section(node.span);
        if (section == Section::Act || section == Section::Assert || !c.explicit())
            && node.children.len() > 0 {
            self.record_oracle(
                c,
                OracleKind::Execution,
                node.span,
                node.text.as_str(),
                expression_facts(&node.children[0]),
                ExprFacts::none(),
                false,
                false,
            );
        }
    }

    fn note_return(&mut self, c: &Context, node: &Node)
        ensures
            final(self)@ == old(self)@.with_return(c@, node@),
    {
        reveal(Facts::with_return);
        if c.observable_return && node.children.len() > 0 && c.is_oracle_section(node.span)
            && !is_unconditional_success(&node.children[0]) {
            self.record_oracle(
                c,
                OracleKind::Execution,
                node.span,
                node.text.as_str(),
                expression_facts(&node.children[0]),
                ExprFacts::none(),
                false,
                false,
            );
        }
    }
}

impl FactVisitor {
    /// Visits a piece of syntax.
    pub fn visit(&mut self, c: &Context, node: &Node)
        ensures
            final(self)@ == visited(c@, old(self)@, node@),
        decreases node, 2nat,
    {
        let ghost before = self@;
        match node.kind {
            Kind::Block => self.visit_block(c, node),
            Kind::Statement => self.visit_statement(c, node),
            Kind::Local => self.visit_local(c, node),
            Kind::ForLoop => self.visit_for_loop(c, node),
            Kind::Arm => self.visit_arm(c, node),
            Kind::Assign => self.visit_assign(c, node),
            Kind::Binary => {
                self.note_compound_assignment(c, node);
                self.visit_parts(c, node);
            },
            Kind::Match => {
                let conditional = self.conditional;
                self.note_match(c, node);
                self.visit_branch(c, Ghost(before), conditional, node);
            },
            Kind::If => self.visit_if(c, node),
            Kind::Closure => self.visit_closure(c, node),
            Kind::Async | Kind::Loop => {
                let conditional = self.conditional;
                self.visit_branch(c, Ghost(before), conditional, node);
            },
            Kind::While => self.visit_while(c, node),
            Kind::Call => {
                let inside_oracle = self.inside_oracle;
                self.note_function_call(c, node);
                self.visit_call_parts(c, Ghost(before), inside_oracle, node);
            },
            Kind::MethodCall => {
                let inside_oracle = self.inside_oracle;
                self.note_method_call(c, node);
                self.visit_call_parts(c, Ghost(before), inside_oracle, node);
            },
            Kind::Macro => self.visit_macro(c, node),
            Kind::Try => {
                self.note_try(c, node);
                self.visit_parts(c, node);
            },
            Kind::Return => {
                self.note_return(c, node);
                self.visit_parts(c, node);
            },
            _ => self.visit_parts(c, node),
        }
    }

    /// Visits the attributes and the children of a node.
    fn visit_parts(&mut self, c: &Context, node: &Node)
        ensures
            final(self)@ == visited_parts(c@, old(self)@, node@),
        decreases node, 0nat,
    {
        self.visit_all(c, &node.attributes);
        self.visit_all(c, &node.children);
    }

    fn visit_all(&mut self, c: &Context, nodes: &Vec<Node>)
        ensures
            final(self)@ == visited_all(c@, old(self)@, views(nodes@)),
        decreases nodes, 3nat,
    {
        let ghost all = views(nodes@);
        let mut i: usize = 0;
        while i < nodes.len()
            invariant
                all == views(nodes@),
                i <= nodes@.len(),
                self@ == visited_all(c@, old(self)@, all.take(i as int)),
            decreases nodes@.len() - i,
        {
            proof {
                take_step(all, i as int);
            }
            self.visit(c, &nodes[i]);
            i += 1;
        }
        proof {
            take_all(all);
        }
    }

    fn visit_block(&mut self, c: &Context, node: &Node)
        ensures
            final(self)@ == visited_block(c@, old(self)@, node@),
        decreases node, 1nat,
    {
        let use_aliases = self.use_aliases.copied();
        let bound_names = self.bound_names.copied();
        let callables = self.local_callable_origins.copied();
        self.declare_items(node);
        self.visit_all(c, &node.children);
        self.use_aliases = use_aliases;
        self.bound_names = bound_names;
        self.local_callable_origins = callables;
    }

    fn visit_statement(&mut self, c: &Context, node: &Node)
        ensures
            final(self)@ == visited_statement(c@, old(self)@, node@),
        decreases node, 1nat,
    {
        let section = c.section(node.span);
        self.section_statements.add_one(section);
        self.visit_parts(c, node);
    }

    fn visit_branch(
        &mut self,
        c: &Context,
        Ghost(before): Ghost<Facts>,
        conditional: bool,
        node: &Node,
    )
        requires
            before.conditional == conditional,
        ensures
            final(self)@ == visited_branch(c@, before, old(self)@, node@),
        decreases node, 1nat,
    {
        self.conditional = true;
        self.visit_parts(c, node);
        self.conditional = conditional;
    }

    fn visit_call_parts(
        &mut self,
        c: &Context,
        Ghost(before): Ghost<Facts>,
        inside_oracle: bool,
        node: &Node,
    )
        requires
            before.inside_oracle == inside_oracle,
        ensures
            final(self)@ == visited_call(c@, before, old(self)@, node@),
        decreases node, 1nat,
    {
        self.visit_parts(c, node);
        self.inside_oracle = inside_oracle;
    }

    fn visit_local(&mut self, c: &Context, node: &Node)
        ensures
            final(self)@ == visited_local(c@, old(self)@, node@),
        decreases node, 1nat,
    {
        let bound = names_of_local(node);
        let previous = self.current_binding_identifiers.copied();
        let callable = self.callable_of_local(node);
        if node.flag && node.children.len() > 1 {
            let section = c.section(node.span);
            self.note_initialized(c, section, node.span, &bound, &node.children[1]);
        }
        self.current_binding_identifiers = bound.copied();
        self.visit_parts(c, node);
        self.current_binding_identifiers = previous;
        if let Some(name) = &callable {
            self.local_callable_origins.insert_for_all(&bound, name);
        }
        self.bound_names.insert_all(&bound);
    }

    fn callable_of_local(&self, node: &Node) -> (r: Option<String>)
        ensures
            option_view(r) == local_callable(self@, node@),
    {
        if node.flag && node.children.len() > 1 {
            if let Some(path) = callable_path_name(&node.children[1]) {
                return Some(self.resolve_imported_name(path.as_str()));
            }
        }
        None
    }

    fn visit_for_loop(&mut self, c: &Context, node: &Node)
        ensures
            final(self)@ == visited_for_loop(c@, old(self)@, node@),
        decreases node, 1nat,
    {
        if node.children.len() <= 2 {
            return ;
        }
        let conditional = self.conditional;
        self.note_loop_pattern(c, &node.children[0], &node.children[1]);
        self.conditional = true;
        self.visit(c, &node.children[1]);
        let bound_names = self.bound_names.copied();
        self.bound_names.insert_all(&names_of_pattern(&node.children[0]));
        self.visit(c, &node.children[2]);
        self.bound_names = bound_names;
        self.conditional = conditional;
    }

    fn visit_arm(&mut self, c: &Context, node: &Node)
        ensures
            final(self)@ == visited_arm(c@, old(self)@, node@),
        decreases node, 1nat,
    {
        let bound_names = self.bound_names.copied();
        self.bound_names.insert_all(&names_of_local(node));
        self.visit_parts(c, node);
        self.bound_names = bound_names;
    }

    fn visit_assign(&mut self, c: &Context, node: &Node)
        ensures
            final(self)@ == visited_assign(c@, old(self)@, node@),
        decreases node, 1nat,
    {
        if node.children.len() <= 1 {
            return ;
        }
        let section = c.section(node.span);
        let previous = self.current_binding_identifiers.copied();
        self.note_assignment(c, section, &node.children[0], &node.children[1]);
        self.current_binding_identifiers = expression_facts(&node.children[0]).identifiers;
        self.visit_parts(c, node);
        self.current_binding_identifiers = previous;
    }

    fn visit_then(&mut self, c: &Context, node: &Node)
        ensures
            final(self)@ == visited_then(c@, old(self)@, node@),
        decreases node, 0nat,
    {
        if node.children.len() <= 1 {
            return ;
        }
        self.visit(c, &node.children[0]);
        let bound_names = self.bound_names.copied();
        self.bound_names.insert_all(&names_of_condition(&node.children[0]));
        self.visit(c, &node.children[1]);
        self.bound_names = bound_names;
    }

    fn visit_if(&mut self, c: &Context, node: &Node)
        ensures
            final(self)@ == visited_if(c@, old(self)@, node@),
        decreases node, 1nat,
    {
        if node.children.len() <= 1 {
            return ;
        }
        let conditional = self.conditional;
        self.note_if(c, node);
        self.note_condition(c, &node.children[0]);
        self.conditional = true;
        self.visit_then(c, node);
        if node.children.len() > 2 {
            self.visit(c, &node.children[2]);
        }
        self.conditional = conditional;
    }

    fn visit_closure(&mut self, c: &Context, node: &Node)
        ensures
            final(self)@ == visited_closure(c@, old(self)@, node@),
        decreases node, 1nat,
    {
        let conditional = self.conditional;
        let bound_names = self.bound_names.copied();
        self.conditional = true;
        self.bound_names.insert_all(&names_of_closure(node, node.inputs));
        self.visit_parts(c, node);
        self.bound_names = bound_names;
        self.conditional = conditional;
    }

    fn visit_while(&mut self, c: &Context, node: &Node)
        ensures
            final(self)@ == visited_while(c@, old(self)@, node@),
        decreases node, 1nat,
    {
        if node.children.len() <= 1 {
            return ;
        }
        let conditional = self.conditional;
        self.conditional = true;
        self.visit(c, &node.children[0]);
        let bound_names = self.bound_names.copied();
        self.bound_names.insert_all(&names_of_condition(&node.children[0]));
        self.visit(c, &node.children[1]);
        self.bound_names = bound_names;
        self.conditional = conditional;
    }

    fn visit_macro(&mut self, c: &Context, node: &Node)
        ensures
            final(self)@ == visited_macro(c@, old(self)@, node@),
        decreases node, 1nat,
    {
        let inside_oracle = self.inside_oracle;
        self.note_format(c, node);
        if c.policy.matches_assertion_macro(path_name(node).as_str()) {
            self.analyze_assertion_macro(c, node);
            self.inside_oracle = true;
            if let Some(list) = &node.arguments {
                self.visit_all(c, list);
            }
            self.inside_oracle = inside_oracle;
        } else {
            self.note_unknown_macro(c, node);
            self.visit_all(c, &node.children);
        }
    }

    /// Records an oracle for the value that a test returns.
    pub fn note_tail(&mut self, c: &Context, node: &Node)
        ensures
            final(self)@ == old(self)@.with_tail(c@, node@),
    {
        if !c.is_oracle_section(node.span) || is_unconditional_success(node) {
            return ;
        }
        let mut i: usize = 0;
        while i < self.oracles.len()
            invariant
                self@ == old(self)@,
                i <= self.oracles@.len(),
                c@.oracle_section(node.span),
                !unconditional_success(node@),
                forall|j: int| 0 <= j < i ==> (#[trigger] self@.oracles[j]).span != node.span,
            decreases self.oracles@.len() - i,
        {
            if self.oracles[i].span == node.span {
                assert(self@.oracles[i as int].span == node.span);
                return ;
            }
            i += 1;
        }
        self.record_oracle(
            c,
            OracleKind::Execution,
            node.span,
            node.text.as_str(),
            expression_facts(node),
            ExprFacts::none(),
            false,
            false,
        );
    }
}

impl Facts {
    /// The facts with an oracle for the value that a test returns, where none stands
    /// there yet.
    pub open spec fn with_tail(self, c: ContextView, t: Tree) -> Facts {
        if c.oracle_section(t.span) && !unconditional_success(t) && !exists|i: int|
            0 <= i < self.oracles.len() && (#[trigger] self.oracles[i]).span == t.span {
            self.with_oracle(
                c,
                OracleKind::Execution,
                t.span,
                t.text,
                facts_of(t),
                no_facts(),
                false,
                false,
            )
        } else {
            self
        }
    }
}

} // verus!
