//! The repository's policy for tests.

use vstd::prelude::*;

use crate::copies::option_view;
use crate::seqs::{first_where, first_where_at, first_where_none, views};
use crate::text::{
    after_last, blank, contains, contains_text, has_prefix, is_blank, last_part, pieces,
    replace_char, same, split, starts_with, trim_leading, with_char, without_leading,
};

verus! {

broadcast use {vstd::std_specs::vec::group_vec_axioms, crate::seqs::group_views};

/// One finding that is accepted, with the reason why.
#[derive(Debug, Clone, PartialEq, Eq)]
pub struct TestExemption {
    pub rule_id: String,
    pub path: String,
    pub test: String,
    pub reason: String,
}

#[verifier::ext_equal]
pub struct TestExemptionView {
    pub rule_id: Seq<char>,
    pub path: Seq<char>,
    pub test: Seq<char>,
    pub reason: Seq<char>,
}

impl View for TestExemption {
    type V = TestExemptionView;

    open spec fn view(&self) -> TestExemptionView {
        TestExemptionView {
            rule_id: self.rule_id@,
            path: self.path@,
            test: self.test@,
            reason: self.reason@,
        }
    }
}

#[derive(Debug, Clone, PartialEq, Eq)]
pub struct TestPolicyConfig {
    pub source_roots: Vec<String>,
    pub aaa_min_lines: usize,
    pub test_attributes: Vec<String>,
    pub assertion_macros: Vec<String>,
    pub assertion_functions: Vec<String>,
    pub mock_interaction_methods: Vec<String>,
    pub controlled_time_functions: Vec<String>,
    pub controlled_random_functions: Vec<String>,
    pub controlled_environment_functions: Vec<String>,
    pub exemptions: Vec<TestExemption>,
}

#[verifier::ext_equal]
pub struct TestPolicyView {
    pub source_roots: Seq<Seq<char>>,
    pub aaa_min_lines: usize,
    pub test_attributes: Seq<Seq<char>>,
    pub assertion_macros: Seq<Seq<char>>,
    pub assertion_functions: Seq<Seq<char>>,
    pub mock_interaction_methods: Seq<Seq<char>>,
    pub controlled_time_functions: Seq<Seq<char>>,
    pub controlled_random_functions: Seq<Seq<char>>,
    pub controlled_environment_functions: Seq<Seq<char>>,
    pub exemptions: Seq<TestExemptionView>,
}

impl View for TestPolicyConfig {
    type V = TestPolicyView;

    open spec fn view(&self) -> TestPolicyView {
        TestPolicyView {
            source_roots: views(self.source_roots@),
            aaa_min_lines: self.aaa_min_lines,
            test_attributes: views(self.test_attributes@),
            assertion_macros: views(self.assertion_macros@),
            assertion_functions: views(self.assertion_functions@),
            mock_interaction_methods: views(self.mock_interaction_methods@),
            controlled_time_functions: views(self.controlled_time_functions@),
            controlled_random_functions: views(self.controlled_random_functions@),
            controlled_environment_functions: views(self.controlled_environment_functions@),
            exemptions: views(self.exemptions@),
        }
    }
}

/// The policy of a repository that states none.
pub open spec fn default_policy() -> TestPolicyView {
    TestPolicyView {
        source_roots: seq!["src"@, "tests"@],
        aaa_min_lines: 5,
        test_attributes: seq![
            "test"@,
            "tokio::test"@,
            "async_std::test"@,
            "test_log::test"@,
            "rstest"@,
            "test_case"@,
            "quickcheck"@,
            "wasm_bindgen_test"@,
        ],
        assertion_macros: seq![
            "assert"@,
            "assert_eq"@,
            "assert_ne"@,
            "debug_assert"@,
            "debug_assert_eq"@,
            "debug_assert_ne"@,
            "assert_matches"@,
            "prop_assert"@,
            "prop_assert_eq"@,
            "prop_assert_ne"@,
            "assert_snapshot"@,
            "assert_debug_snapshot"@,
            "assert_json_snapshot"@,
        ],
        assertion_functions: seq!["assert_matches"@],
        mock_interaction_methods: seq![],
        controlled_time_functions: seq![],
        controlled_random_functions: seq![],
        controlled_environment_functions: seq![],
        exemptions: seq![],
    }
}

/// Owned copies of some texts.
fn owned(texts: &[&str]) -> (r: Vec<String>)
    ensures
        views(r@) == views(texts@),
{
    let mut out: Vec<String> = Vec::new();
    let mut i: usize = 0;
    while i < texts.len()
        invariant
            i <= texts@.len(),
            views(out@) == views(texts@).take(i as int),
        decreases texts@.len() - i,
    {
        out.push(texts[i].to_owned());
        i += 1;
        assert(views(out@) =~= views(texts@).take(i as int));
    }
    assert(views(texts@).take(i as int) =~= views(texts@));
    out
}

pub fn default_source_roots() -> (r: Vec<String>)
    ensures
        views(r@) == default_policy().source_roots,
{
    let texts = ["src", "tests"];
    assert(views(texts@) =~= default_policy().source_roots);
    owned(&texts)
}

pub fn default_aaa_min_lines() -> (r: usize)
    ensures
        r == default_policy().aaa_min_lines,
{
    5
}

pub fn default_test_attributes() -> (r: Vec<String>)
    ensures
        views(r@) == default_policy().test_attributes,
{
    let texts = [
        "test",
        "tokio::test",
        "async_std::test",
        "test_log::test",
        "rstest",
        "test_case",
        "quickcheck",
        "wasm_bindgen_test",
    ];
    assert(views(texts@) =~= default_policy().test_attributes);
    owned(&texts)
}

pub fn default_assertion_macros() -> (r: Vec<String>)
    ensures
        views(r@) == default_policy().assertion_macros,
{
    let texts = [
        "assert",
        "assert_eq",
        "assert_ne",
        "debug_assert",
        "debug_assert_eq",
        "debug_assert_ne",
        "assert_matches",
        "prop_assert",
        "prop_assert_eq",
        "prop_assert_ne",
        "assert_snapshot",
        "assert_debug_snapshot",
        "assert_json_snapshot",
    ];
    assert(views(texts@) =~= default_policy().assertion_macros);
    owned(&texts)
}

pub fn default_assertion_functions() -> (r: Vec<String>)
    ensures
        views(r@) == default_policy().assertion_functions,
{
    let texts = ["assert_matches"];
    assert(views(texts@) =~= default_policy().assertion_functions);
    owned(&texts)
}

impl Default for TestPolicyConfig {
    fn default() -> (r: Self)
        ensures
            r@ == default_policy(),
    {
        TestPolicyConfig {
            source_roots: default_source_roots(),
            aaa_min_lines: default_aaa_min_lines(),
            test_attributes: default_test_attributes(),
            assertion_macros: default_assertion_macros(),
            assertion_functions: default_assertion_functions(),
            mock_interaction_methods: Vec::new(),
            controlled_time_functions: Vec::new(),
            controlled_random_functions: Vec::new(),
            controlled_environment_functions: Vec::new(),
            exemptions: Vec::new(),
        }
    }
}

/// Whether a qualified name is configured: in full, or by its last segment where
/// the configured name has one segment only.
pub open spec fn configured_matches(configured: Seq<Seq<char>>, qualified: Seq<char>) -> bool {
    exists|i: int|
        0 <= i < configured.len() && name_matches(#[trigger] configured[i], qualified)
}

pub open spec fn name_matches(name: Seq<char>, qualified: Seq<char>) -> bool {
    name == qualified || (!contains_text(name, "::"@) && name == after_last(qualified, "::"@))
}

pub fn matches_configured_name(configured: &Vec<String>, qualified: &str) -> (r: bool)
    ensures
        r == configured_matches(views(configured@), qualified@),
{
    let final_segment = last_part(qualified, "::");
    let mut i: usize = 0;
    while i < configured.len()
        invariant
            final_segment@ == after_last(qualified@, "::"@),
            i <= configured@.len(),
            forall|j: int|
                0 <= j < i ==> !name_matches(#[trigger] views(configured@)[j], qualified@),
        decreases configured@.len() - i,
    {
        let name = configured[i].as_str();
        if same(name, qualified) || (!contains(name, "::") && same(name, final_segment.as_str())) {
            assert(name_matches(views(configured@)[i as int], qualified@));
            return true;
        }
        i += 1;
    }
    false
}

/// A path with forward slashes and without leading `./`.
pub open spec fn normalized_path(path: Seq<char>) -> Seq<char> {
    without_leading(with_char(path, '\\', '/'), "./"@)
}

pub fn normalize_path(path: &str) -> (r: String)
    ensures
        r@ == normalized_path(path@),
{
    trim_leading(replace_char(path, '\\', '/').as_str(), "./")
}

/// Normalising a normalised path changes nothing.
pub proof fn normalized_path_idempotent(path: Seq<char>)
    ensures
        normalized_path(normalized_path(path)) == normalized_path(path),
{
    let slashed = with_char(path, '\\', '/');
    let once = normalized_path(path);
    without_leading_is_suffix(slashed, "./"@);
    assert forall|i: int| 0 <= i < once.len() implies #[trigger] once[i] != '\\' by {
        assert(once[i] == slashed[i + (slashed.len() - once.len())]);
    }
    assert(with_char(once, '\\', '/') =~= once);
    without_leading_idempotent(slashed, "./"@);
}

proof fn without_leading_is_suffix(s: Seq<char>, pattern: Seq<char>)
    ensures
        without_leading(s, pattern).len() <= s.len(),
        forall|i: int|
            0 <= i < without_leading(s, pattern).len() ==> #[trigger] without_leading(s, pattern)[i]
                == s[i + (s.len() - without_leading(s, pattern).len())],
    decreases s.len(),
{
    if pattern.len() > 0 && has_prefix(s, pattern) {
        without_leading_is_suffix(s.skip(pattern.len() as int), pattern);
    }
}

proof fn without_leading_idempotent(s: Seq<char>, pattern: Seq<char>)
    ensures
        without_leading(without_leading(s, pattern), pattern) == without_leading(s, pattern),
    decreases s.len(),
{
    if pattern.len() > 0 && has_prefix(s, pattern) {
        without_leading_idempotent(s.skip(pattern.len() as int), pattern);
    }
}

/// Whether a path is not blank, is relative and names no parent directory.
pub open spec fn safe_relative_path(path: Seq<char>) -> bool {
    let slashed = with_char(path, '\\', '/');
    !is_blank(slashed) && !has_prefix(slashed, "/"@) && !pieces(slashed, "/"@).contains(".."@)
}

#[verifier::loop_isolation(false)]
pub fn is_safe_relative_path(path: &str) -> (r: bool)
    ensures
        r == safe_relative_path(path@),
{
    let slashed = replace_char(path, '\\', '/');
    if blank(slashed.as_str()) || starts_with(slashed.as_str(), "/") {
        return false;
    }
    proof {
        reveal_strlit("/");
    }
    let components = split(slashed.as_str(), "/");
    let mut i: usize = 0;
    while i < components.len()
        invariant
            views(components@) == pieces(slashed@, "/"@),
            i <= components@.len(),
            forall|j: int| 0 <= j < i ==> #[trigger] views(components@)[j] != ".."@,
        decreases components@.len() - i,
    {
        if same(components[i].as_str(), "..") {
            assert(views(components@)[i as int] == ".."@);
            return false;
        }
        i += 1;
    }
    true
}

/// Why a policy is refused.
#[derive(Debug, Clone, PartialEq, Eq)]
pub enum PolicyError {
    Missing,
    EmptySourceRoots,
    UnsafeSourceRoot,
    ZeroMinimumLines,
    IncompleteExemption,
    InexactExemption,
    UnsafeExemptionPath,
    DuplicateExemption { rule_id: String, path: String, test: String },
}

#[verifier::ext_equal]
pub enum PolicyErrorView {
    Missing,
    EmptySourceRoots,
    UnsafeSourceRoot,
    ZeroMinimumLines,
    IncompleteExemption,
    InexactExemption,
    UnsafeExemptionPath,
    DuplicateExemption { rule_id: Seq<char>, path: Seq<char>, test: Seq<char> },
}

impl View for PolicyError {
    type V = PolicyErrorView;

    open spec fn view(&self) -> PolicyErrorView {
        match self {
            PolicyError::Missing => PolicyErrorView::Missing,
            PolicyError::EmptySourceRoots => PolicyErrorView::EmptySourceRoots,
            PolicyError::UnsafeSourceRoot => PolicyErrorView::UnsafeSourceRoot,
            PolicyError::ZeroMinimumLines => PolicyErrorView::ZeroMinimumLines,
            PolicyError::IncompleteExemption => PolicyErrorView::IncompleteExemption,
            PolicyError::InexactExemption => PolicyErrorView::InexactExemption,
            PolicyError::UnsafeExemptionPath => PolicyErrorView::UnsafeExemptionPath,
            PolicyError::DuplicateExemption { rule_id, path, test } =>
                PolicyErrorView::DuplicateExemption {
                rule_id: rule_id@,
                path: path@,
                test: test@,
            },
        }
    }
}

/// What is said of a refused policy that was read from `path`.
pub open spec fn policy_message(error: PolicyErrorView, path: Seq<char>) -> Seq<char> {
    match error {
        PolicyErrorView::Missing => "configured test policy does not exist: "@ + path,
        PolicyErrorView::EmptySourceRoots => path + ": tests.source_roots must not be empty"@,
        PolicyErrorView::UnsafeSourceRoot => path
            + ": tests.source_roots entries must be nonempty repository-relative paths"@,
        PolicyErrorView::ZeroMinimumLines => path + ": tests.aaa_min_lines must be positive"@,
        PolicyErrorView::IncompleteExemption => path
            + ": every tests.exemptions entry requires rule_id, path, test, and reason"@,
        PolicyErrorView::InexactExemption => path
            + ": tests.exemptions must identify an exact rule, path, and test"@,
        PolicyErrorView::UnsafeExemptionPath => path
            + ": tests.exemptions paths must be repository-relative and cannot traverse parents"@,
        PolicyErrorView::DuplicateExemption { rule_id, path: exempted, test } => path
            + ": duplicate tests.exemptions entry for "@ + rule_id + " "@ + exempted + " "@ + test,
    }
}

impl PolicyError {
    /// What is said of a refused policy that was read from `path`.
    pub fn message(&self, path: &str) -> (r: String)
        ensures
            r@ == policy_message(self@, path@),
    {
        let mut text = path.to_owned();
        match self {
            PolicyError::Missing => {
                text = "configured test policy does not exist: ".to_owned();
                text.append(path);
            },
            PolicyError::EmptySourceRoots => {
                text.append(": tests.source_roots must not be empty");
            },
            PolicyError::UnsafeSourceRoot => {
                text.append(
                    ": tests.source_roots entries must be nonempty repository-relative paths",
                );
            },
            PolicyError::ZeroMinimumLines => {
                text.append(": tests.aaa_min_lines must be positive");
            },
            PolicyError::IncompleteExemption => {
                text.append(
                    ": every tests.exemptions entry requires rule_id, path, test, and reason",
                );
            },
            PolicyError::InexactExemption => {
                text.append(": tests.exemptions must identify an exact rule, path, and test");
            },
            PolicyError::UnsafeExemptionPath => {
                text.append(
                    ": tests.exemptions paths must be repository-relative and cannot traverse parents",
                );
            },
            PolicyError::DuplicateExemption { rule_id, path: exempted, test } => {
                text.append(": duplicate tests.exemptions entry for ");
                text.append(rule_id.as_str());
                text.append(" ");
                text.append(exempted.as_str());
                text.append(" ");
                text.append(test.as_str());
            },
        }
        text
    }
}

/// Whether two exemptions accept the same finding.
pub open spec fn same_exemption(a: TestExemptionView, b: TestExemptionView) -> bool {
    a.rule_id == b.rule_id && normalized_path(a.path) == normalized_path(b.path) && a.test
        == b.test
}

pub open spec fn has_wildcard(s: Seq<char>) -> bool {
    s.contains('*') || s.contains('?')
}

/// What is wrong with the exemption at `i`, seen with those before it.
pub open spec fn exemption_fault(exemptions: Seq<TestExemptionView>, i: int) -> Option<
    PolicyErrorView,
> {
    let e = exemptions[i];
    if is_blank(e.rule_id) || is_blank(e.path) || is_blank(e.test) || is_blank(e.reason) {
        Some(PolicyErrorView::IncompleteExemption)
    } else if has_wildcard(e.rule_id) || has_wildcard(e.path) || has_wildcard(e.test) {
        Some(PolicyErrorView::InexactExemption)
    } else if !safe_relative_path(e.path) {
        Some(PolicyErrorView::UnsafeExemptionPath)
    } else if exists|j: int| 0 <= j < i && same_exemption(#[trigger] exemptions[j], e) {
        Some(
            PolicyErrorView::DuplicateExemption { rule_id: e.rule_id, path: e.path, test: e.test },
        )
    } else {
        None
    }
}

/// The first fault among the exemptions from `i` on.
pub open spec fn first_exemption_fault(exemptions: Seq<TestExemptionView>, i: int) -> Option<
    PolicyErrorView,
>
    decreases exemptions.len() - i,
{
    if i >= exemptions.len() {
        None
    } else {
        match exemption_fault(exemptions, i) {
            Some(error) => Some(error),
            None => first_exemption_fault(exemptions, i + 1),
        }
    }
}

/// The first thing that is wrong with a policy.
pub open spec fn policy_fault(policy: TestPolicyView) -> Option<PolicyErrorView> {
    if policy.source_roots.len() == 0 {
        Some(PolicyErrorView::EmptySourceRoots)
    } else if exists|i: int|
        0 <= i < policy.source_roots.len() && !safe_relative_path(
            #[trigger] policy.source_roots[i],
        ) {
        Some(PolicyErrorView::UnsafeSourceRoot)
    } else if policy.aaa_min_lines == 0 {
        Some(PolicyErrorView::ZeroMinimumLines)
    } else {
        first_exemption_fault(policy.exemptions, 0)
    }
}

fn wildcard(s: &str) -> (r: bool)
    ensures
        r == has_wildcard(s@),
{
    let all = crate::text::chars(s);
    let mut i: usize = 0;
    while i < all.len()
        invariant
            all@ == s@,
            i <= all@.len(),
            forall|j: int| 0 <= j < i ==> #[trigger] s@[j] != '*' && s@[j] != '?',
        decreases all@.len() - i,
    {
        if all[i] == '*' || all[i] == '?' {
            assert(s@.contains(s@[i as int]));
            return true;
        }
        i += 1;
    }
    false
}

fn exempts_same(a: &TestExemption, b: &TestExemption) -> (r: bool)
    ensures
        r == same_exemption(a@, b@),
{
    same(a.rule_id.as_str(), b.rule_id.as_str()) && same(
        normalize_path(a.path.as_str()).as_str(),
        normalize_path(b.path.as_str()).as_str(),
    ) && same(a.test.as_str(), b.test.as_str())
}

#[verifier::loop_isolation(false)]
fn check_exemption(exemptions: &Vec<TestExemption>, i: usize) -> (r: Option<PolicyError>)
    requires
        i < exemptions@.len(),
    ensures
        option_view(r) == exemption_fault(
            views(exemptions@),
            i as int,
        ),
{
    let e = &exemptions[i];
    if blank(e.rule_id.as_str()) || blank(e.path.as_str()) || blank(e.test.as_str()) || blank(
        e.reason.as_str(),
    ) {
        return Some(PolicyError::IncompleteExemption);
    }
    if wildcard(e.rule_id.as_str()) || wildcard(e.path.as_str()) || wildcard(e.test.as_str()) {
        return Some(PolicyError::InexactExemption);
    }
    if !is_safe_relative_path(e.path.as_str()) {
        return Some(PolicyError::UnsafeExemptionPath);
    }
    let mut j: usize = 0;
    while j < i
        invariant
            j <= i < exemptions@.len(),
            e@ == views(exemptions@)[i as int],
            forall|k: int|
                0 <= k < j ==> !same_exemption(
                    #[trigger] views(exemptions@)[k],
                    views(exemptions@)[i as int],
                ),
        decreases i - j,
    {
        if exempts_same(&exemptions[j], e) {
            assert(same_exemption(views(exemptions@)[j as int], views(exemptions@)[i as int]));
            return Some(
                PolicyError::DuplicateExemption {
                    rule_id: e.rule_id.clone(),
                    path: e.path.clone(),
                    test: e.test.clone(),
                },
            );
        }
        j += 1;
    }
    None
}

/// Accepts a policy, or says what is wrong with it first.
pub fn validate(config: &TestPolicyConfig) -> (r: Result<(), PolicyError>)
    ensures
        match r {
            Ok(()) => policy_fault(config@) is None,
            Err(error) => policy_fault(config@) == Some(error@),
        },
{
    if config.source_roots.len() == 0 {
        return Err(PolicyError::EmptySourceRoots);
    }
    let mut i: usize = 0;
    while i < config.source_roots.len()
        invariant
            i <= config.source_roots@.len(),
            config.source_roots@.len() > 0,
            forall|j: int|
                0 <= j < i ==> safe_relative_path(#[trigger] views(config.source_roots@)[j]),
        decreases config.source_roots@.len() - i,
    {
        if !is_safe_relative_path(config.source_roots[i].as_str()) {
            assert(!safe_relative_path(config@.source_roots[i as int]));
            return Err(PolicyError::UnsafeSourceRoot);
        }
        i += 1;
    }
    if config.aaa_min_lines == 0 {
        return Err(PolicyError::ZeroMinimumLines);
    }
    let mut k: usize = 0;
    while k < config.exemptions.len()
        invariant
            k <= config.exemptions@.len(),
            policy_fault(config@) == first_exemption_fault(config@.exemptions, k as int),
        decreases config.exemptions@.len() - k,
    {
        if let Some(error) = check_exemption(&config.exemptions, k) {
            return Err(error);
        }
        k += 1;
    }
    Ok(())
}

/// The policy to use where the policy file is absent.
pub fn absent_policy(configured: bool) -> (r: Result<TestPolicyConfig, PolicyError>)
    ensures
        match r {
            Ok(policy) => !configured && policy@ == default_policy(),
            Err(error) => configured && error@ == PolicyErrorView::Missing,
        },
{
    if configured {
        Err(PolicyError::Missing)
    } else {
        Ok(TestPolicyConfig::default())
    }
}

/// In a policy that was accepted no two exemptions accept the same finding.
pub proof fn accepted_exemptions_are_distinct(policy: TestPolicyView, i: int, j: int)
    requires
        policy_fault(policy) is None,
        0 <= i < j < policy.exemptions.len(),
    ensures
        !same_exemption(policy.exemptions[i], policy.exemptions[j]),
{
    no_fault_at(policy.exemptions, 0, j);
    if same_exemption(policy.exemptions[i], policy.exemptions[j]) {
        assert(exemption_fault(policy.exemptions, j) is Some);
    }
}

proof fn no_fault_at(exemptions: Seq<TestExemptionView>, from: int, at: int)
    requires
        first_exemption_fault(exemptions, from) is None,
        0 <= from <= at < exemptions.len(),
    ensures
        exemption_fault(exemptions, at) is None,
    decreases at - from,
{
    if from < at {
        no_fault_at(exemptions, from + 1, at);
    }
}

/// The exemption of a finding.
pub open spec fn exemption_for(
    exemptions: Seq<TestExemptionView>,
    rule_id: Seq<char>,
    path: Seq<char>,
    test: Seq<char>,
) -> Option<TestExemptionView> {
    first_where(
        exemptions,
        |e: TestExemptionView|
            e.rule_id == rule_id && normalized_path(e.path) == normalized_path(path) && e.test
                == test,
    )
}

impl TestPolicyConfig {
    pub fn matches_test_attribute(&self, qualified: &str) -> (r: bool)
        ensures
            r == configured_matches(self@.test_attributes, qualified@),
    {
        matches_configured_name(&self.test_attributes, qualified)
    }

    pub fn matches_assertion_macro(&self, qualified: &str) -> (r: bool)
        ensures
            r == configured_matches(self@.assertion_macros, qualified@),
    {
        matches_configured_name(&self.assertion_macros, qualified)
    }

    pub fn matches_assertion_function(&self, qualified: &str) -> (r: bool)
        ensures
            r == configured_matches(self@.assertion_functions, qualified@),
    {
        matches_configured_name(&self.assertion_functions, qualified)
    }

    pub fn matches_mock_interaction(&self, qualified: &str) -> (r: bool)
        ensures
            r == configured_matches(self@.mock_interaction_methods, qualified@),
    {
        matches_configured_name(&self.mock_interaction_methods, qualified)
    }

    pub fn is_controlled_time(&self, qualified: &str) -> (r: bool)
        ensures
            r == configured_matches(self@.controlled_time_functions, qualified@),
    {
        matches_configured_name(&self.controlled_time_functions, qualified)
    }

    pub fn is_controlled_random(&self, qualified: &str) -> (r: bool)
        ensures
            r == configured_matches(self@.controlled_random_functions, qualified@),
    {
        matches_configured_name(&self.controlled_random_functions, qualified)
    }

    pub fn is_controlled_environment(&self, qualified: &str) -> (r: bool)
        ensures
            r == configured_matches(self@.controlled_environment_functions, qualified@),
    {
        matches_configured_name(&self.controlled_environment_functions, qualified)
    }

    /// The exemption that names exactly this rule, path and test.
    pub fn exemption(&self, rule_id: &str, path: &str, test: &str) -> (r: Option<&TestExemption>)
        ensures
            match r {
                Some(e) => exemption_for(self@.exemptions, rule_id@, path@, test@) == Some(e@),
                None => exemption_for(self@.exemptions, rule_id@, path@, test@) is None,
            },
    {
        let wanted = normalize_path(path);
        let ghost p = |e: TestExemptionView|
            e.rule_id == rule_id@ && normalized_path(e.path) == normalized_path(path@) && e.test
                == test@;
        let mut i: usize = 0;
        while i < self.exemptions.len()
            invariant
                wanted@ == normalized_path(path@),
                p == (|e: TestExemptionView|
                    e.rule_id == rule_id@ && normalized_path(e.path) == normalized_path(path@)
                        && e.test == test@),
                i <= self.exemptions@.len(),
                forall|j: int| 0 <= j < i ==> !p(#[trigger] self@.exemptions[j]),
            decreases self.exemptions@.len() - i,
        {
            let e = &self.exemptions[i];
            if same(e.rule_id.as_str(), rule_id) && same(
                normalize_path(e.path.as_str()).as_str(),
                wanted.as_str(),
            ) && same(e.test.as_str(), test) {
                proof {
                    first_where_at(self@.exemptions, p, i as int);
                }
                return Some(e);
            }
            i += 1;
        }
        proof {
            first_where_none(self@.exemptions, p);
        }
        None
    }
}

} // verus!
