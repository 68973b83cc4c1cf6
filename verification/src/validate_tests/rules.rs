//! The rules that tests are held to.

use sha2::Digest;
use vstd::prelude::*;
use vstd::utf8::encode_utf8;

use super::config::{exemption_for, TestPolicyConfig, TestPolicyView};
use super::model::{
    AnalysisGap, AnalysisGapView, AppliedExemption, AppliedExemptionView, Evidence, EvidenceView,
    Finding, FindingCategory, FindingView, HygieneFact, HygieneFactView, HygieneKind, Marker,
    MarkerKind, OracleFact, OracleFactView, OracleKind, Position, Remediation, RemediationView,
    Section, SourceLocation, SourceLocationView, SourceSpan, TestCase, TestCaseView, TestIdentity,
    TestIdentityView, REPORT_SCHEMA_VERSION,
};
use crate::copies::{option_view, Copied};
use crate::names::Names;
use crate::order::{sort, sorted, Order};
use crate::seqs::{
    any, every, first_where, first_where_at, first_where_none, flat, keep, take_all, take_step,
    views,
};
use crate::text::{
    blank, has_prefix, is_blank, less, replace, replace_char, same, starts_with, text_less,
    text_less_irreflexive, text_order, then_text, with_char, with_text,
};

verus! {

broadcast use {vstd::std_specs::vec::group_vec_axioms, crate::seqs::group_views};

pub const NAMING_SHOULD_PREFIX: &'static str = "naming.should-prefix";

pub const AAA_MISSING_ARRANGE: &'static str = "structure.aaa.missing-arrange";

pub const AAA_MISSING_ACT: &'static str = "structure.aaa.missing-act";

pub const AAA_MISSING_ASSERT: &'static str = "structure.aaa.missing-assert";

pub const AAA_OUT_OF_ORDER: &'static str = "structure.aaa.out-of-order";

pub const AAA_COMBINED: &'static str = "structure.aaa.combined";

pub const MULTIPLE_ACTS: &'static str = "behavior.multiple-acts";

pub const IGNORE_MISSING_REASON: &'static str = "ignore.missing-reason";

pub const ORACLE_MISSING: &'static str = "oracle.missing";

pub const ORACLE_VACUOUS: &'static str = "oracle.vacuous";

pub const ORACLE_DISCONNECTED: &'static str = "oracle.disconnected";

pub const PANIC_MISSING_EXPECTED: &'static str = "panic.missing-expected";

pub const FIXED_SLEEP: &'static str = "nondeterminism.fixed-sleep";

pub const WALL_CLOCK: &'static str = "nondeterminism.clock";

pub const RANDOM: &'static str = "nondeterminism.rng";

pub const ENVIRONMENT: &'static str = "nondeterminism.environment";

pub const SELF_DERIVED_INTENT_GAP: &'static str = "analysis.intent.self-derived-expected";

pub const ERROR_UNINSPECTED_INTENT_GAP: &'static str = "analysis.intent.error-uninspected";

pub const INTERACTION_ONLY_INTENT_GAP: &'static str = "analysis.intent.interaction-only";

/// The SHA-256 digest of some bytes.
pub uninterp spec fn sha256_digest(bytes: Seq<u8>) -> Seq<u8>;

/// `Sha256::digest`: the digest depends on the bytes alone and has 32 bytes.
#[verifier::external_body]
fn sha256(bytes: &[u8]) -> (r: Vec<u8>)
    ensures
        r@ == sha256_digest(bytes@),
        r@.len() == 32,
{
    sha2::Sha256::digest(bytes).to_vec()
}

pub open spec fn hex_digit(n: int) -> char {
    if n < 10 {
        (n + 48) as char
    } else {
        (n + 87) as char
    }
}

/// Bytes in lower-case hexadecimal, two digits each.
pub open spec fn hex(bytes: Seq<u8>) -> Seq<char> {
    flat(bytes, |b: u8| seq![hex_digit(b as int / 16), hex_digit(b as int % 16)])
}

fn hex_char(n: u8) -> (r: char)
    requires
        n < 16,
    ensures
        r == hex_digit(n as int),
{
    if n < 10 {
        (n + 48) as char
    } else {
        (n + 87) as char
    }
}

fn hex_text(bytes: &Vec<u8>) -> (r: String)
    ensures
        r@ == hex(bytes@),
{
    let mut out = String::new();
    let mut i: usize = 0;
    while i < bytes.len()
        invariant
            i <= bytes@.len(),
            out@ == hex(bytes@.take(i as int)),
        decreases bytes@.len() - i,
    {
        proof {
            take_step(bytes@, i as int);
        }
        let ghost before = out@;
        let b: u8 = bytes[i];
        out.push(hex_char(b / 16));
        out.push(hex_char(b % 16));
        assert(out@ =~= before + seq![hex_digit(b as int / 16), hex_digit(b as int % 16)]);
        i += 1;
    }
    proof {
        take_all(bytes@);
    }
    out
}

/// What a finding is known by: its rule, the path of its file with forward slashes,
/// and its test.
pub open spec fn fingerprint_of(
    rule_id: Seq<char>,
    path: Seq<char>,
    qualified_test: Seq<char>,
) -> Seq<char> {
    let canonical = REPORT_SCHEMA_VERSION@ + "\0"@ + rule_id + "\0"@ + with_char(path, '\\', '/')
        + "\0"@ + qualified_test;
    "sha256:"@ + hex(sha256_digest(encode_utf8(canonical)))
}

pub fn fingerprint(rule_id: &str, path: &str, qualified_test: &str) -> (r: String)
    ensures
        r@ == fingerprint_of(rule_id@, path@, qualified_test@),
{
    let mut canonical = REPORT_SCHEMA_VERSION.to_owned();
    canonical.append("\0");
    canonical.append(rule_id);
    canonical.append("\0");
    canonical.append(replace_char(path, '\\', '/').as_str());
    canonical.append("\0");
    canonical.append(qualified_test);
    let mut text = "sha256:".to_owned();
    text.append(hex_text(&sha256(canonical.as_str().as_bytes())).as_str());
    text
}

/// The fingerprint does not change with the direction of the path's slashes.
pub proof fn fingerprint_ignores_slash_direction(
    rule_id: Seq<char>,
    path: Seq<char>,
    qualified_test: Seq<char>,
)
    ensures
        fingerprint_of(rule_id, with_char(path, '\\', '/'), qualified_test) == fingerprint_of(
            rule_id,
            path,
            qualified_test,
        ),
{
    assert(with_char(with_char(path, '\\', '/'), '\\', '/') =~= with_char(path, '\\', '/'));
}

/// A word for a POSIX shell: in single quotes, each single quote inside spelled out.
pub open spec fn shell_word(value: Seq<char>) -> Seq<char> {
    "'"@ + with_text(value, '\'', "'\"'\"'"@) + "'"@
}

pub fn shell_quote(value: &str) -> (r: String)
    ensures
        r@ == shell_word(value@),
{
    let mut text = "'".to_owned();
    text.append(replace(value, '\'', "'\"'\"'").as_str());
    text.append("'");
    text
}

pub open spec fn identity_of(test: TestCaseView) -> TestIdentityView {
    TestIdentityView { name: test.name, qualified_name: test.qualified_name }
}

fn identity(test: &TestCase) -> (r: TestIdentity)
    ensures
        r@ == identity_of(test@),
{
    TestIdentity { name: test.name.clone(), qualified_name: test.qualified_name.clone() }
}

pub open spec fn location_of(
    test: TestCaseView,
    span: SourceSpan,
    label: Seq<char>,
) -> SourceLocationView {
    SourceLocationView { path: test.path, span, label }
}

fn location(test: &TestCase, span: SourceSpan, label: &str) -> (r: SourceLocation)
    ensures
        r@ == location_of(test@, span, label@),
{
    SourceLocation { path: test.path.clone(), span, label: label.to_owned() }
}

pub open spec fn evidence_of(
    test: TestCaseView,
    kind: Seq<char>,
    span: SourceSpan,
    message: Seq<char>,
) -> EvidenceView {
    EvidenceView { kind, message, location: location_of(test, span, message) }
}

fn evidence(test: &TestCase, kind: &str, span: SourceSpan, message: &str) -> (r: Evidence)
    ensures
        r@ == evidence_of(test@, kind@, span, message@),
{
    Evidence {
        kind: kind.to_owned(),
        message: message.to_owned(),
        location: location(test, span, message),
    }
}

/// The texts that a rule gives to its findings.
pub struct RuleText<'a> {
    pub why: &'a str,
    pub summary: &'a str,
    pub action: &'a str,
    pub example: Option<&'a str>,
}

/// A finding of `rule_id` in `test`.
pub open spec fn finding_of(
    test: TestCaseView,
    rule_id: Seq<char>,
    category: FindingCategory,
    span: SourceSpan,
    message: Seq<char>,
    evidence: Seq<EvidenceView>,
    why: Seq<char>,
    summary: Seq<char>,
    action: Seq<char>,
    example: Option<Seq<char>>,
) -> FindingView {
    FindingView {
        rule_id,
        category,
        severity: "error"@,
        confidence: "high"@,
        fingerprint: fingerprint_of(rule_id, test.path, test.qualified_name),
        test: identity_of(test),
        message,
        primary: location_of(test, span, "primary finding"@),
        evidence,
        why_it_matters: why,
        remediation: RemediationView {
            summary,
            actions: seq![action],
            example,
            rerun: "cntryl-tools validate-tests -f "@ + shell_word(test.path),
        },
    }
}

fn finding(
    test: &TestCase,
    rule_id: &str,
    category: FindingCategory,
    span: SourceSpan,
    message: &str,
    evidence: Vec<Evidence>,
    text: RuleText,
) -> (r: Finding)
    ensures
        r@ == finding_of(
            test@,
            rule_id@,
            category,
            span,
            message@,
            views(evidence@),
            text.why@,
            text.summary@,
            text.action@,
            option_view(text.example),
        ),
{
    let mut actions: Vec<String> = Vec::new();
    actions.push(text.action.to_owned());
    assert(views(actions@) =~= seq![text.action@]);
    let mut rerun = "cntryl-tools validate-tests -f ".to_owned();
    rerun.append(shell_quote(test.path.as_str()).as_str());
    let example: Option<String> = match text.example {
        Some(example) => Some(example.to_owned()),
        None => None,
    };
    Finding {
        rule_id: rule_id.to_owned(),
        category,
        severity: "error",
        confidence: "high",
        fingerprint: fingerprint(rule_id, test.path.as_str(), test.qualified_name.as_str()),
        test: identity(test),
        message: message.to_owned(),
        primary: location(test, span, "primary finding"),
        evidence,
        why_it_matters: text.why.to_owned(),
        remediation: Remediation { summary: text.summary.to_owned(), actions, example, rerun },
    }
}

/// The markers of one kind.
pub open spec fn markers_of(test: TestCaseView, kind: MarkerKind) -> Seq<Marker> {
    keep(test.markers, |m: Marker| m.kind == kind)
}

fn markers(test: &TestCase, kind: MarkerKind) -> (r: Vec<Marker>)
    ensures
        r@ == markers_of(test@, kind),
{
    let ghost p = |m: Marker| m.kind == kind;
    let mut out: Vec<Marker> = Vec::new();
    let mut i: usize = 0;
    while i < test.markers.len()
        invariant
            p == (|m: Marker| m.kind == kind),
            i <= test.markers@.len(),
            out@ == keep(test.markers@.take(i as int), p),
        decreases test.markers@.len() - i,
    {
        proof {
            take_step(test.markers@, i as int);
        }
        if test.markers[i].kind == kind {
            out.push(test.markers[i]);
        }
        i += 1;
    }
    proof {
        take_all(test.markers@);
    }
    out
}

pub open spec fn section_of(kind: MarkerKind) -> Section {
    match kind {
        MarkerKind::Arrange => Section::Arrange,
        MarkerKind::Act => Section::Act,
        MarkerKind::Assert => Section::Assert,
    }
}

fn marker_section(kind: MarkerKind) -> (r: Section)
    ensures
        r == section_of(kind),
{
    match kind {
        MarkerKind::Arrange => Section::Arrange,
        MarkerKind::Act => Section::Act,
        MarkerKind::Assert => Section::Assert,
    }
}

pub open spec fn marker_evidence_of(
    test: TestCaseView,
    markers: Seq<Marker>,
    kind: Seq<char>,
    message: Seq<char>,
) -> Seq<EvidenceView> {
    Seq::new(markers.len(), |i: int| evidence_of(test, kind, markers[i].span, message))
}

fn marker_evidence(test: &TestCase, markers: &Vec<Marker>, kind: &str, message: &str) -> (r: Vec<
    Evidence,
>)
    ensures
        views(r@) == marker_evidence_of(test@, markers@, kind@, message@),
{
    let mut out: Vec<Evidence> = Vec::new();
    let mut i: usize = 0;
    while i < markers.len()
        invariant
            i <= markers@.len(),
            views(out@) == marker_evidence_of(test@, markers@, kind@, message@).take(i as int),
        decreases markers@.len() - i,
    {
        out.push(evidence(test, kind, markers[i].span, message));
        i += 1;
        assert(views(out@) =~= marker_evidence_of(test@, markers@, kind@, message@).take(
            i as int,
        ));
    }
    assert(marker_evidence_of(test@, markers@, kind@, message@).take(i as int)
        =~= marker_evidence_of(test@, markers@, kind@, message@));
    out
}

/// Whether an oracle stands where the outcome of the Act can be seen.
pub open spec fn post_act(test: TestCaseView, oracle: OracleFactView) -> bool {
    oracle.section == Section::Act || oracle.section == Section::Assert || (test.markers.len() == 0
        && oracle.section == Section::Body)
}

fn is_post_act_oracle(test: &TestCase, oracle: &OracleFact) -> (r: bool)
    ensures
        r == post_act(test@, oracle@),
{
    oracle.section == Section::Act || oracle.section == Section::Assert || (test.markers.len() == 0
        && oracle.section == Section::Body)
}

/// The oracles after the Act that always execute.
pub open spec fn post_act_oracles_of(test: TestCaseView) -> Seq<OracleFactView> {
    keep(test.oracles, |o: OracleFactView| post_act(test, o) && !o.conditional)
}

fn post_act_oracles(test: &TestCase) -> (r: Vec<&OracleFact>)
    ensures
        views(r@) == post_act_oracles_of(test@),
{
    let ghost p = |o: OracleFactView| post_act(test@, o) && !o.conditional;
    let ghost all = test@.oracles;
    let mut out: Vec<&OracleFact> = Vec::new();
    let mut i: usize = 0;
    while i < test.oracles.len()
        invariant
            p == (|o: OracleFactView| post_act(test@, o) && !o.conditional),
            all == views(test.oracles@),
            i <= test.oracles@.len(),
            views(out@) == keep(all.take(i as int), p),
        decreases test.oracles@.len() - i,
    {
        proof {
            take_step(all, i as int);
        }
        let oracle = &test.oracles[i];
        if is_post_act_oracle(test, oracle) && !oracle.conditional {
            out.push(oracle);
        }
        i += 1;
    }
    proof {
        take_all(all);
    }
    out
}

/// The oracles after the Act that look at an outcome.
pub open spec fn outcome_oracles_of(test: TestCaseView) -> Seq<OracleFactView> {
    keep(post_act_oracles_of(test), |o: OracleFactView| o.kind != OracleKind::Interaction)
}

fn outcome_oracles(test: &TestCase) -> (r: Vec<&OracleFact>)
    ensures
        views(r@) == outcome_oracles_of(test@),
{
    let ghost p = |o: OracleFactView| o.kind != OracleKind::Interaction;
    let candidates = post_act_oracles(test);
    let ghost all = views(candidates@);
    let mut out: Vec<&OracleFact> = Vec::new();
    let mut i: usize = 0;
    while i < candidates.len()
        invariant
            p == (|o: OracleFactView| o.kind != OracleKind::Interaction),
            all == views(candidates@),
            i <= candidates@.len(),
            views(out@) == keep(all.take(i as int), p),
        decreases candidates@.len() - i,
    {
        proof {
            take_step(all, i as int);
        }
        if candidates[i].kind != OracleKind::Interaction {
            out.push(candidates[i]);
        }
        i += 1;
    }
    proof {
        take_all(all);
    }
    out
}

/// The outcome oracles of the Assert section, or where it has none all of them.
pub open spec fn disconnected_candidates_of(test: TestCaseView) -> Seq<OracleFactView> {
    let asserted = keep(
        outcome_oracles_of(test),
        |o: OracleFactView| o.section == Section::Assert,
    );
    if asserted.len() == 0 {
        outcome_oracles_of(test)
    } else {
        asserted
    }
}

fn disconnected_candidates(test: &TestCase) -> (r: Vec<&OracleFact>)
    ensures
        views(r@) == disconnected_candidates_of(test@),
{
    let ghost p = |o: OracleFactView| o.section == Section::Assert;
    let outcomes = outcome_oracles(test);
    let ghost all = views(outcomes@);
    let mut out: Vec<&OracleFact> = Vec::new();
    let mut i: usize = 0;
    while i < outcomes.len()
        invariant
            p == (|o: OracleFactView| o.section == Section::Assert),
            all == views(outcomes@),
            i <= outcomes@.len(),
            views(out@) == keep(all.take(i as int), p),
        decreases outcomes@.len() - i,
    {
        proof {
            take_step(all, i as int);
        }
        if outcomes[i].section == Section::Assert {
            out.push(outcomes[i]);
        }
        i += 1;
    }
    proof {
        take_all(all);
    }
    if out.len() == 0 {
        outcomes
    } else {
        out
    }
}

/// The names that an oracle mentions.
pub open spec fn oracle_names(oracle: OracleFactView) -> Set<Seq<char>> {
    oracle.actual_identifiers.union(oracle.expected_identifiers)
}

pub fn oracle_identifiers(oracle: &OracleFact) -> (r: Names)
    ensures
        r@ == oracle_names(oracle@),
{
    let mut r = oracle.actual_identifiers.copied();
    r.insert_all(&oracle.expected_identifiers);
    r
}

/// Whether some name carries a result or an effect of the Act.
pub open spec fn observes_act(names: Set<Seq<char>>, test: TestCaseView) -> bool {
    !names.disjoint(test.act_outputs) || !names.disjoint(test.act_effects)
}

fn identifiers_observe_act(identifiers: &Names, test: &TestCase) -> (r: bool)
    ensures
        r == observes_act(identifiers@, test@),
{
    !identifiers.is_disjoint(&test.act_outputs) || !identifiers.is_disjoint(&test.act_effects)
}

/// Whether a gap leaves open if the test has an oracle.
pub open spec fn oracle_gap_code(code: Seq<char>) -> bool {
    code == "analysis.conditional-oracle"@ || code == "analysis.partially-parsed-assertion"@ || code
        == "analysis.unresolved-assertion-helper"@ || code
        == "analysis.unresolved-scenario-delegate"@ || code == "analysis.unsupported-macro"@
}

fn is_oracle_gap_code(code: &str) -> (r: bool)
    ensures
        r == oracle_gap_code(code@),
{
    same(code, "analysis.conditional-oracle") || same(code, "analysis.partially-parsed-assertion")
        || same(code, "analysis.unresolved-assertion-helper") || same(
        code,
        "analysis.unresolved-scenario-delegate",
    ) || same(code, "analysis.unsupported-macro")
}

/// The marker that starts last, of equal ones the last.
pub open spec fn latest_marker(markers: Seq<Marker>) -> Option<Marker>
    decreases markers.len(),
{
    if markers.len() == 0 {
        None
    } else {
        match latest_marker(markers.drop_last()) {
            Some(best) if markers.last().span.start.precedes(best.span.start) => Some(best),
            _ => Some(markers.last()),
        }
    }
}

/// Whether a gap lies after the start of the Act.
pub open spec fn gap_after_act(test: TestCaseView, gap: AnalysisGapView) -> bool {
    test.markers.len() == 0 || match latest_marker(
        keep(
            test.markers,
            |m: Marker| !gap.location.span.start.precedes(m.span.start),
        ),
    ) {
        Some(marker) => marker.kind == MarkerKind::Act || marker.kind == MarkerKind::Assert,
        None => false,
    }
}

fn gap_is_post_act(test: &TestCase, gap: &AnalysisGap) -> (r: bool)
    ensures
        r == gap_after_act(test@, gap@),
{
    if test.markers.len() == 0 {
        return true;
    }
    let at: Position = gap.location.span.start;
    let ghost p = |m: Marker| !at.precedes(m.span.start);
    let mut best: Option<Marker> = None;
    let mut i: usize = 0;
    while i < test.markers.len()
        invariant
            p == (|m: Marker| !at.precedes(m.span.start)),
            i <= test.markers@.len(),
            best == latest_marker(keep(test.markers@.take(i as int), p)),
        decreases test.markers@.len() - i,
    {
        proof {
            take_step(test.markers@, i as int);
        }
        let marker: Marker = test.markers[i];
        if !at.is_before(&marker.span.start) {
            proof {
                let kept = keep(test.markers@.take(i as int), p);
                assert(kept.push(marker).drop_last() =~= kept);
            }
            best = match best {
                Some(found) => if marker.span.start.is_before(&found.span.start) {
                    Some(found)
                } else {
                    Some(marker)
                },
                None => Some(marker),
            };
        }
        i += 1;
    }
    proof {
        take_all(test.markers@);
        assert(p == (|m: Marker| !gap@.location.span.start.precedes(m.span.start)));
    }
    match best {
        Some(marker) => marker.kind == MarkerKind::Act || marker.kind == MarkerKind::Assert,
        None => false,
    }
}

pub open spec fn unresolved_oracle_gap(test: TestCaseView) -> bool {
    any(test.gaps, |g: AnalysisGapView| oracle_gap_code(g.code) && gap_after_act(test, g))
}

fn has_unresolved_oracle_gap(test: &TestCase) -> (r: bool)
    ensures
        r == unresolved_oracle_gap(test@),
{
    let ghost p = |g: AnalysisGapView| oracle_gap_code(g.code) && gap_after_act(test@, g);
    let mut i: usize = 0;
    while i < test.gaps.len()
        invariant
            p == (|g: AnalysisGapView| oracle_gap_code(g.code) && gap_after_act(test@, g)),
            i <= test.gaps@.len(),
            forall|j: int| 0 <= j < i ==> !p(#[trigger] test@.gaps[j]),
        decreases test.gaps@.len() - i,
    {
        if is_oracle_gap_code(test.gaps[i].code.as_str()) && gap_is_post_act(test, &test.gaps[i]) {
            assert(p(test@.gaps[i as int]));
            return true;
        }
        i += 1;
    }
    false
}

pub open spec fn causality_gap_code(code: Seq<char>) -> bool {
    code == "analysis.shadowed-binding"@ || code == "analysis.pattern-causality"@ || code
        == "analysis.unresolved-act-computation"@
}

/// Whether a gap makes it unclear what the Act produces.
pub open spec fn causality_gap(test: TestCaseView) -> bool {
    any(test.gaps, |g: AnalysisGapView| causality_gap_code(g.code))
}

fn has_causality_gap(test: &TestCase) -> (r: bool)
    ensures
        r == causality_gap(test@),
{
    let mut i: usize = 0;
    while i < test.gaps.len()
        invariant
            i <= test.gaps@.len(),
            forall|j: int| 0 <= j < i ==> !causality_gap_code((#[trigger] test@.gaps[j]).code),
        decreases test.gaps@.len() - i,
    {
        let code = test.gaps[i].code.as_str();
        if same(code, "analysis.shadowed-binding") || same(code, "analysis.pattern-causality")
            || same(code, "analysis.unresolved-act-computation") {
            assert(causality_gap_code(test@.gaps[i as int].code));
            return true;
        }
        i += 1;
    }
    false
}

/// Whether a gap leaves open if this oracle observes the Act.
pub open spec fn gap_covers_oracle(gap: AnalysisGapView, oracle: OracleFactView) -> bool {
    ||| (gap.code == "analysis.indirect-causality"@ || gap.code
        == "analysis.receiver-effect-causality"@ || gap.code
        == "analysis.shared-reference-effect-causality"@) && gap.location.span == oracle.span
    ||| (gap.code == "analysis.partially-parsed-assertion"@ || gap.code
        == "analysis.unsupported-macro"@ || gap.code == "analysis.implicit-format-capture"@)
        && oracle.span.encloses(gap.location.span)
}

pub open spec fn indirect_causality_gap(test: TestCaseView, oracle: OracleFactView) -> bool {
    any(test.gaps, |g: AnalysisGapView| gap_covers_oracle(g, oracle))
}

fn has_indirect_causality_gap(test: &TestCase, oracle: &OracleFact) -> (r: bool)
    ensures
        r == indirect_causality_gap(test@, oracle@),
{
    let mut i: usize = 0;
    while i < test.gaps.len()
        invariant
            i <= test.gaps@.len(),
            forall|j: int| 0 <= j < i ==> !gap_covers_oracle(#[trigger] test@.gaps[j], oracle@),
        decreases test.gaps@.len() - i,
    {
        let gap = &test.gaps[i];
        let code = gap.code.as_str();
        let same_place = (same(code, "analysis.indirect-causality") || same(
            code,
            "analysis.receiver-effect-causality",
        ) || same(code, "analysis.shared-reference-effect-causality")) && gap.location.span
            == oracle.span;
        let within = (same(code, "analysis.partially-parsed-assertion") || same(
            code,
            "analysis.unsupported-macro",
        ) || same(code, "analysis.implicit-format-capture")) && oracle.span.contains(
            &gap.location.span,
        );
        if same_place || within {
            assert(gap_covers_oracle(test@.gaps[i as int], oracle@));
            return true;
        }
        i += 1;
    }
    false
}

/// Whether an oracle surely observes nothing of the Act.
pub open spec fn disconnected(test: TestCaseView, oracle: OracleFactView) -> bool {
    oracle.section != Section::Act && oracle_names(oracle).disjoint(test.act_outputs)
        && oracle_names(oracle).disjoint(test.act_effects) && !indirect_causality_gap(test, oracle)
}

/// Whether the test has one Act and oracles, and none of them observes it.
pub open spec fn reports_disconnected(test: TestCaseView) -> bool {
    &&& markers_of(test, MarkerKind::Act).len() == 1
    &&& !causality_gap(test)
    &&& disconnected_candidates_of(test).len() > 0
    &&& every(disconnected_candidates_of(test), |o: OracleFactView| disconnected(test, o))
}

fn should_report_disconnected(test: &TestCase) -> (r: bool)
    ensures
        r == reports_disconnected(test@),
{
    if markers(test, MarkerKind::Act).len() != 1 || has_causality_gap(test) {
        return false;
    }
    let considered = disconnected_candidates(test);
    let ghost all = views(considered@);
    let ghost p = |o: OracleFactView| disconnected(test@, o);
    if considered.len() == 0 {
        return false;
    }
    let mut i: usize = 0;
    while i < considered.len()
        invariant
            p == (|o: OracleFactView| disconnected(test@, o)),
            all == views(considered@),
            all == disconnected_candidates_of(test@),
            i <= considered@.len(),
            forall|j: int| 0 <= j < i ==> p(#[trigger] all[j]),
        decreases considered@.len() - i,
    {
        let oracle = considered[i];
        let names = oracle_identifiers(oracle);
        if oracle.section == Section::Act || !names.is_disjoint(&test.act_outputs)
            || !names.is_disjoint(&test.act_effects) || has_indirect_causality_gap(test, oracle) {
            assert(!p(all[i as int]));
            return false;
        }
        i += 1;
    }
    true
}

pub open spec fn contains_root_call(test: TestCaseView, call: Option<Seq<char>>) -> bool {
    match call {
        Some(call) => test.act_root_calls.contains(call),
        None => false,
    }
}

/// Whether an oracle compares a result of the Act with the same call made again.
pub open spec fn self_derived(test: TestCaseView, oracle: OracleFactView) -> bool {
    &&& oracle.self_derived_candidate
    &&& !oracle.conditional
    &&& !oracle.tautological
    &&& post_act(test, oracle)
    &&& !causality_gap(test)
    &&& markers_of(test, MarkerKind::Act).len() == 1
    &&& test.act_root_calls.len() == 1
    &&& (observes_act(oracle.actual_identifiers, test) && contains_root_call(
        test,
        oracle.expected_root_call,
    )) || (observes_act(oracle.expected_identifiers, test) && contains_root_call(
        test,
        oracle.actual_root_call,
    ))
}

fn holds_root_call(test: &TestCase, call: &Option<String>) -> (r: bool)
    ensures
        r == contains_root_call(test@, option_view(*call)),
{
    match call {
        Some(call) => test.act_root_calls.contains(call.as_str()),
        None => false,
    }
}

fn oracle_is_self_derived(test: &TestCase, oracle: &OracleFact) -> (r: bool)
    ensures
        r == self_derived(test@, oracle@),
{
    oracle.self_derived_candidate && !oracle.conditional && !oracle.tautological
        && is_post_act_oracle(test, oracle) && !has_causality_gap(test) && markers(
        test,
        MarkerKind::Act,
    ).len() == 1 && test.act_root_calls.len() == 1 && ((identifiers_observe_act(
        &oracle.actual_identifiers,
        test,
    ) && holds_root_call(test, &oracle.expected_root_call)) || (identifiers_observe_act(
        &oracle.expected_identifiers,
        test,
    ) && holds_root_call(test, &oracle.actual_root_call)))
}

/// Whether an oracle that always executes checks after the Act only that there is an
/// error.
pub open spec fn checks_broad_error(test: TestCaseView, oracle: OracleFactView) -> bool {
    post_act(test, oracle) && !oracle.conditional && oracle.kind == OracleKind::BroadError
}

/// The names that `n` rounds reach: from a broad error check on a known name, every
/// name that the check binds.
pub open spec fn error_names_in(test: TestCaseView, start: Set<Seq<char>>, n: nat) -> Set<Seq<char>>
    decreases n,
{
    if n == 0 {
        start
    } else {
        let known = error_names_in(test, start, (n - 1) as nat);
        Set::new(
            |x: Seq<char>|
                known.contains(x) || exists|i: int|
                    0 <= i < test.oracles.len() && #[trigger] extracts(test, test.oracles[i], known)
                        && test.oracles[i].produced_identifiers.contains(x),
        )
    }
}

/// Whether an oracle is a broad error check on a known name.
pub open spec fn extracts(
    test: TestCaseView,
    oracle: OracleFactView,
    known: Set<Seq<char>>,
) -> bool {
    checks_broad_error(test, oracle) && !oracle_names(oracle).disjoint(known)
}

/// The names that carry the error of a broad error check.
pub open spec fn error_names(test: TestCaseView, broad: OracleFactView) -> Set<Seq<char>> {
    let start = oracle_names(broad).union(broad.produced_identifiers);
    Set::new(|x: Seq<char>| exists|n: nat| #[trigger] error_names_in(test, start, n).contains(x))
}

/// Whether the error of a broad error check is looked at more closely elsewhere.
pub open spec fn precise_error_oracle(test: TestCaseView, broad: OracleFactView) -> bool {
    any(
        test.oracles,
        |o: OracleFactView|
            post_act(test, o) && !o.conditional && o.kind == OracleKind::Outcome && !o.tautological
                && !error_names(test, broad).disjoint(oracle_names(o)),
    )
}

pub open spec fn unused(used: Seq<bool>) -> nat
    decreases used.len(),
{
    if used.len() == 0 {
        0
    } else {
        unused(used.drop_last()) + if used.last() {
            0nat
        } else {
            1
        }
    }
}

proof fn using_one_leaves_fewer(used: Seq<bool>, i: int)
    requires
        0 <= i < used.len(),
        !used[i],
    ensures
        unused(used.update(i, true)) < unused(used),
    decreases used.len(),
{
    let now = used.update(i, true);
    if i == used.len() - 1 {
        assert(now.drop_last() =~= used.drop_last());
    } else {
        assert(now.drop_last() =~= used.drop_last().update(i, true));
        using_one_leaves_fewer(used.drop_last(), i);
    }
}

/// A set that holds the start and is closed under extraction holds every error name.
pub(crate) proof fn closed_set_holds_error_names(
    test: TestCaseView,
    start: Set<Seq<char>>,
    held: Set<Seq<char>>,
    n: nat,
)
    requires
        start.subset_of(held),
        forall|i: int|
            0 <= i < test.oracles.len() && #[trigger] extracts(test, test.oracles[i], held)
                ==> test.oracles[i].produced_identifiers.subset_of(held),
    ensures
        error_names_in(test, start, n).subset_of(held),
    decreases n,
{
    if n > 0 {
        closed_set_holds_error_names(test, start, held, (n - 1) as nat);
        let known = error_names_in(test, start, (n - 1) as nat);
        assert forall|x: Seq<char>| error_names_in(test, start, n).contains(x) implies held.contains(
            x,
        ) by {
            if !known.contains(x) {
                let i = choose|i: int|
                    0 <= i < test.oracles.len() && #[trigger] extracts(test, test.oracles[i], known)
                        && test.oracles[i].produced_identifiers.contains(x);
                assert(extracts(test, test.oracles[i], held));
            }
        }
    }
}

fn reachable_error_names(test: &TestCase, broad: &OracleFact) -> (r: Names)
    ensures
        r@ == error_names(test@, broad@),
{
    let ghost view = test@;
    let ghost start = oracle_names(broad@).union(broad@.produced_identifiers);
    let ghost all = error_names(view, broad@);
    let mut names = oracle_identifiers(broad);
    names.insert_all(&broad.produced_identifiers);
    let mut used: Vec<bool> = Vec::new();
    let mut k: usize = 0;
    while k < test.oracles.len()
        invariant
            k <= test.oracles@.len(),
            used@.len() == k,
            forall|j: int| 0 <= j < k ==> !used@[j],
        decreases test.oracles@.len() - k,
    {
        used.push(false);
        k += 1;
    }
    assert(names@.subset_of(all)) by {
        assert forall|x: Seq<char>| names@.contains(x) implies all.contains(x) by {
            assert(error_names_in(view, start, 0).contains(x));
        }
    }
    loop
        invariant_except_break
            view == test@,
            start == oracle_names(broad@).union(broad@.produced_identifiers),
            all == error_names(view, broad@),
            used@.len() == test.oracles@.len(),
            start.subset_of(names@),
            names@.subset_of(all),
            forall|j: int|
                0 <= j < used@.len() && #[trigger] used@[j]
                    ==> view.oracles[j].produced_identifiers.subset_of(names@),
        ensures
            start.subset_of(names@),
            names@.subset_of(all),
            forall|j: int|
                0 <= j < view.oracles.len() && #[trigger] extracts(view, view.oracles[j], names@)
                    ==> view.oracles[j].produced_identifiers.subset_of(names@),
        decreases unused(used@),
    {
        let ghost before = used@;
        let mut grown = false;
        let mut i: usize = 0;
        while i < test.oracles.len()
            invariant
                view == test@,
                start == oracle_names(broad@).union(broad@.produced_identifiers),
                all == error_names(view, broad@),
                i <= test.oracles@.len(),
                used@.len() == test.oracles@.len(),
                before.len() == used@.len(),
                start.subset_of(names@),
                names@.subset_of(all),
                grown ==> unused(used@) < unused(before),
                !grown ==> used@ == before && forall|j: int|
                    0 <= j < i && !used@[j] ==> !#[trigger] extracts(
                        view,
                        view.oracles[j],
                        names@,
                    ),
                forall|j: int|
                    0 <= j < used@.len() && #[trigger] used@[j]
                        ==> view.oracles[j].produced_identifiers.subset_of(names@),
            decreases test.oracles@.len() - i,
        {
            let oracle = &test.oracles[i];
            if !used[i] && is_post_act_oracle(test, oracle) && !oracle.conditional && oracle.kind
                == OracleKind::BroadError && !oracle_identifiers(oracle).is_disjoint(&names) {
                let ghost known = names@;
                proof {
                    assert(extracts(view, view.oracles[i as int], known));
                    using_one_leaves_fewer(used@, i as int);
                    let x = choose|x: Seq<char>|
                        oracle_names(view.oracles[i as int]).contains(x) && known.contains(x);
                    assert(all.contains(x));
                    let n = choose|n: nat| #[trigger] error_names_in(view, start, n).contains(x);
                    assert forall|y: Seq<char>|
                        view.oracles[i as int].produced_identifiers.contains(
                            y,
                        ) implies all.contains(y) by {
                        let at = error_names_in(view, start, n);
                        assert(at.contains(x));
                        assert(extracts(view, view.oracles[i as int], at));
                        assert(error_names_in(view, start, n + 1).contains(y));
                    }
                }
                names.insert_all(&oracle.produced_identifiers);
                used.set(i, true);
                grown = true;
            } else {
                proof {
                    if !grown && !used@[i as int] {
                        assert(!extracts(view, view.oracles[i as int], names@));
                    }
                }
            }
            i += 1;
        }
        if !grown {
            break ;
        }
    }
    proof {
        assert forall|x: Seq<char>| all.contains(x) implies names@.contains(x) by {
            let n = choose|n: nat| #[trigger] error_names_in(view, start, n).contains(x);
            closed_set_holds_error_names(view, start, names@, n);
        }
        assert(names@ =~= all);
    }
    names
}

fn has_precise_error_oracle(test: &TestCase, broad: &OracleFact) -> (r: bool)
    ensures
        r == precise_error_oracle(test@, broad@),
{
    let names = reachable_error_names(test, broad);
    let ghost p = |o: OracleFactView|
        post_act(test@, o) && !o.conditional && o.kind == OracleKind::Outcome && !o.tautological
            && !error_names(test@, broad@).disjoint(oracle_names(o));
    let mut i: usize = 0;
    while i < test.oracles.len()
        invariant
            p == (|o: OracleFactView|
                post_act(test@, o) && !o.conditional && o.kind == OracleKind::Outcome
                    && !o.tautological && !error_names(test@, broad@).disjoint(oracle_names(o))),
            names@ == error_names(test@, broad@),
            i <= test.oracles@.len(),
            forall|j: int| 0 <= j < i ==> !p(#[trigger] test@.oracles[j]),
        decreases test.oracles@.len() - i,
    {
        let oracle = &test.oracles[i];
        if is_post_act_oracle(test, oracle) && !oracle.conditional && oracle.kind
            == OracleKind::Outcome && !oracle.tautological && !names.is_disjoint(
            &oracle_identifiers(oracle),
        ) {
            assert(p(test@.oracles[i as int]));
            return true;
        }
        i += 1;
    }
    false
}

/// Whether reading the clock can change what the test asserts.
pub open spec fn clock_matters(test: TestCaseView, fact: HygieneFactView) -> bool {
    ||| fact.in_oracle
    ||| exists|i: int|
        0 <= i < test.oracles.len() && reads_clock_output(test, #[trigger] test.oracles[i])
    ||| fact.section == Section::Act && exists|i: int|
        0 <= i < test.calls.len() && (#[trigger] test.calls[i]).section == Section::Act
            && test.calls[i].span != fact.span && test.calls[i].span.encloses(fact.span)
}

pub open spec fn reads_clock_output(test: TestCaseView, oracle: OracleFactView) -> bool {
    !oracle.conditional && !oracle_names(oracle).disjoint(test.uncontrolled_clock_outputs)
}

fn clock_influences_test(test: &TestCase, fact: &HygieneFact) -> (r: bool)
    ensures
        r == clock_matters(test@, fact@),
{
    if fact.in_oracle {
        return true;
    }
    let mut i: usize = 0;
    while i < test.oracles.len()
        invariant
            i <= test.oracles@.len(),
            forall|j: int| 0 <= j < i ==> !reads_clock_output(test@, #[trigger] test@.oracles[j]),
        decreases test.oracles@.len() - i,
    {
        let oracle = &test.oracles[i];
        if !oracle.conditional && !oracle_identifiers(oracle).is_disjoint(
            &test.uncontrolled_clock_outputs,
        ) {
            assert(reads_clock_output(test@, test@.oracles[i as int]));
            return true;
        }
        i += 1;
    }
    if fact.section != Section::Act {
        return false;
    }
    let mut k: usize = 0;
    while k < test.calls.len()
        invariant
            k <= test.calls@.len(),
            fact.section == Section::Act,
            forall|j: int|
                0 <= j < k ==> !((#[trigger] test@.calls[j]).section == Section::Act
                    && test@.calls[j].span != fact.span && test@.calls[j].span.encloses(fact.span)),
        decreases test.calls@.len() - k,
    {
        let call = &test.calls[k];
        if call.section == Section::Act && call.span != fact.span && call.span.contains(
            &fact.span,
        ) {
            assert(test@.calls[k as int].section == Section::Act);
            return true;
        }
        k += 1;
    }
    false
}

pub open spec fn intent_gap_of(
    test: TestCaseView,
    code: Seq<char>,
    span: SourceSpan,
    message: Seq<char>,
) -> AnalysisGapView {
    AnalysisGapView {
        code,
        test: identity_of(test),
        message,
        location: location_of(test, span, "intent requires review"@),
    }
}

fn intent_gap(test: &TestCase, code: &str, span: SourceSpan, message: &str) -> (r: AnalysisGap)
    ensures
        r@ == intent_gap_of(test@, code@, span, message@),
{
    AnalysisGap {
        code: code.to_owned(),
        test: identity(test),
        message: message.to_owned(),
        location: location(test, span, "intent requires review"),
    }
}

/// A gap where an expected value is the Act's own call made again.
pub open spec fn self_derived_gaps(test: TestCaseView) -> Seq<AnalysisGapView> {
    match first_where(test.oracles, |o: OracleFactView| self_derived(test, o)) {
        Some(oracle) => seq![
            intent_gap_of(
                test,
                SELF_DERIVED_INTENT_GAP@,
                oracle.span,
                "expected value repeats the Act invocation; construct it independently unless this test intentionally proves determinism"@,
            ),
        ],
        None => seq![],
    }
}

fn find_self_derived(test: &TestCase) -> (r: Option<&OracleFact>)
    ensures
        option_view(r) == first_where(test@.oracles, |o: OracleFactView| self_derived(test@, o)),
{
    let ghost p = |o: OracleFactView| self_derived(test@, o);
    let mut i: usize = 0;
    while i < test.oracles.len()
        invariant
            p == (|o: OracleFactView| self_derived(test@, o)),
            i <= test.oracles@.len(),
            forall|j: int| 0 <= j < i ==> !p(#[trigger] test@.oracles[j]),
        decreases test.oracles@.len() - i,
    {
        if oracle_is_self_derived(test, &test.oracles[i]) {
            proof {
                first_where_at(test@.oracles, p, i as int);
            }
            return Some(&test.oracles[i]);
        }
        i += 1;
    }
    proof {
        first_where_none(test@.oracles, p);
    }
    None
}

/// A gap where only the presence of an error is checked.
pub open spec fn uninspected_error_gaps(test: TestCaseView) -> Seq<AnalysisGapView> {
    match first_where(
        test.oracles,
        |o: OracleFactView| checks_broad_error(test, o) && !precise_error_oracle(test, o),
    ) {
        Some(oracle) => seq![
            intent_gap_of(
                test,
                ERROR_UNINSPECTED_INTENT_GAP@,
                oracle.span,
                "only error presence is checked; inspect a stable variant, code, or diagnostic when the error type carries distinguishable failures"@,
            ),
        ],
        None => seq![],
    }
}

fn find_uninspected_error(test: &TestCase) -> (r: Option<&OracleFact>)
    ensures
        option_view(r) == first_where(
            test@.oracles,
            |o: OracleFactView| checks_broad_error(test@, o) && !precise_error_oracle(test@, o),
        ),
{
    let ghost p = |o: OracleFactView|
        checks_broad_error(test@, o) && !precise_error_oracle(test@, o);
    let mut i: usize = 0;
    while i < test.oracles.len()
        invariant
            p == (|o: OracleFactView|
                checks_broad_error(test@, o) && !precise_error_oracle(test@, o)),
            i <= test.oracles@.len(),
            forall|j: int| 0 <= j < i ==> !p(#[trigger] test@.oracles[j]),
        decreases test.oracles@.len() - i,
    {
        let oracle = &test.oracles[i];
        if is_post_act_oracle(test, oracle) && !oracle.conditional && oracle.kind
            == OracleKind::BroadError && !has_precise_error_oracle(test, oracle) {
            proof {
                first_where_at(test@.oracles, p, i as int);
            }
            return Some(oracle);
        }
        i += 1;
    }
    proof {
        first_where_none(test@.oracles, p);
    }
    None
}

/// A gap where every oracle checks nothing but calls of a mock.
pub open spec fn interaction_only_gaps(test: TestCaseView) -> Seq<AnalysisGapView> {
    let oracles = post_act_oracles_of(test);
    if oracles.len() > 0 && every(oracles, |o: OracleFactView| o.kind == OracleKind::Interaction) {
        seq![
            intent_gap_of(
                test,
                INTERACTION_ONLY_INTENT_GAP@,
                oracles[0].span,
                "only configured mock interactions are verified; add a public outcome when the interaction itself is not the contract"@,
            ),
        ]
    } else {
        seq![]
    }
}

/// The gaps that ask what a test is meant to prove.
pub open spec fn intent_gaps_of(test: TestCaseView) -> Seq<AnalysisGapView> {
    self_derived_gaps(test) + uninspected_error_gaps(test) + interaction_only_gaps(test)
}

pub fn evaluate_intent_gaps(test: &TestCase) -> (r: Vec<AnalysisGap>)
    ensures
        views(r@) == intent_gaps_of(test@),
{
    let mut gaps: Vec<AnalysisGap> = Vec::new();
    if let Some(oracle) = find_self_derived(test) {
        gaps.push(
            intent_gap(
                test,
                SELF_DERIVED_INTENT_GAP,
                oracle.span,
                "expected value repeats the Act invocation; construct it independently unless this test intentionally proves determinism",
            ),
        );
    }
    assert(views(gaps@) =~= self_derived_gaps(test@));
    if let Some(oracle) = find_uninspected_error(test) {
        gaps.push(
            intent_gap(
                test,
                ERROR_UNINSPECTED_INTENT_GAP,
                oracle.span,
                "only error presence is checked; inspect a stable variant, code, or diagnostic when the error type carries distinguishable failures",
            ),
        );
    }
    assert(views(gaps@) =~= self_derived_gaps(test@) + uninspected_error_gaps(test@));
    let oracles = post_act_oracles(test);
    let ghost all = views(oracles@);
    let ghost p = |o: OracleFactView| o.kind == OracleKind::Interaction;
    let mut only = oracles.len() > 0;
    let mut i: usize = 0;
    while i < oracles.len()
        invariant
            p == (|o: OracleFactView| o.kind == OracleKind::Interaction),
            all == views(oracles@),
            i <= oracles@.len(),
            only == (oracles@.len() > 0 && forall|j: int| 0 <= j < i ==> p(#[trigger] all[j])),
        decreases oracles@.len() - i,
    {
        if oracles[i].kind != OracleKind::Interaction {
            assert(!p(all[i as int]));
            only = false;
        }
        i += 1;
    }
    if only {
        gaps.push(
            intent_gap(
                test,
                INTERACTION_ONLY_INTENT_GAP,
                oracles[0].span,
                "only configured mock interactions are verified; add a public outcome when the interaction itself is not the contract",
            ),
        );
    }
    assert(views(gaps@) =~= intent_gaps_of(test@));
    gaps
}

/// The finding for a section whose marker is missing or which holds no statement.
pub open spec fn missing_section_findings(
    test: TestCaseView,
    kind: MarkerKind,
    rule_id: Seq<char>,
    label: Seq<char>,
) -> Seq<FindingView> {
    let matching = markers_of(test, kind);
    let empty = matching.len() == 1 && test.section_statements.of(section_of(kind)) == 0;
    if matching.len() == 0 || empty {
        seq![
            finding_of(
                test,
                rule_id,
                FindingCategory::Structure,
                if matching.len() == 0 {
                    test.function_span
                } else {
                    matching[0].span
                },
                if empty {
                    "`// "@ + label + "` section contains no code"@
                } else {
                    "missing `// "@ + label + "` section"@
                },
                seq![],
                "Visible AAA boundaries keep setup, the production stimulus, and observations reviewable."@,
                "Add one nonempty `// "@ + label + "` section."@,
                "Keep the markers in Arrange, Act, Assert order."@,
                None,
            ),
        ]
    } else {
        seq![]
    }
}

fn check_section(
    test: &TestCase,
    kind: MarkerKind,
    rule_id: &str,
    label: &str,
    findings: &mut Vec<Finding>,
)
    ensures
        views(final(findings)@) == views(old(findings)@) + missing_section_findings(
            test@,
            kind,
            rule_id@,
            label@,
        ),
{
    let matching = markers(test, kind);
    let empty = matching.len() == 1 && test.section_statements.get(marker_section(kind)) == 0;
    if matching.len() == 0 || empty {
        let mut message = if empty {
            "`// ".to_owned()
        } else {
            "missing `// ".to_owned()
        };
        message.append(label);
        message.append(
            if empty {
                "` section contains no code"
            } else {
                "` section"
            },
        );
        let mut summary = "Add one nonempty `// ".to_owned();
        summary.append(label);
        summary.append("` section.");
        let span: SourceSpan = if matching.len() == 0 {
            test.function_span
        } else {
            matching[0].span
        };
        findings.push(
            finding(
                test,
                rule_id,
                FindingCategory::Structure,
                span,
                message.as_str(),
                Vec::new(),
                RuleText {
                    why: "Visible AAA boundaries keep setup, the production stimulus, and observations reviewable.",
                    summary: summary.as_str(),
                    action: "Keep the markers in Arrange, Act, Assert order.",
                    example: None,
                },
            ),
        );
    }
    assert(views(findings@) =~= views(old(findings)@) + missing_section_findings(
        test@,
        kind,
        rule_id@,
        label@,
    ));
}

/// The finding for markers that say more than one section's name.
pub open spec fn combined_findings(test: TestCaseView) -> Seq<FindingView> {
    let combined = keep(test.markers, |m: Marker| m.combined);
    if combined.len() > 0 {
        seq![
            finding_of(
                test,
                AAA_COMBINED@,
                FindingCategory::Structure,
                combined[0].span,
                "AAA marker combines sections or contains extra text"@,
                marker_evidence_of(test, combined, "marker"@, "Combined AAA marker"@),
                "Combined markers obscure where the production stimulus ends and observation begins."@,
                "Use exact standalone `// Arrange`, `// Act`, and `// Assert` markers."@,
                "Move explanatory comments beneath the relevant exact marker."@,
                None,
            ),
        ]
    } else {
        seq![]
    }
}

fn combined_markers(test: &TestCase) -> (r: Vec<Marker>)
    ensures
        r@ == keep(test@.markers, |m: Marker| m.combined),
{
    let ghost p = |m: Marker| m.combined;
    let mut out: Vec<Marker> = Vec::new();
    let mut i: usize = 0;
    while i < test.markers.len()
        invariant
            p == (|m: Marker| m.combined),
            i <= test.markers@.len(),
            out@ == keep(test.markers@.take(i as int), p),
        decreases test.markers@.len() - i,
    {
        proof {
            take_step(test.markers@, i as int);
        }
        if test.markers[i].combined {
            out.push(test.markers[i]);
        }
        i += 1;
    }
    proof {
        take_all(test.markers@);
    }
    out
}

/// Whether a section is opened twice, or the sections come out of order.
pub open spec fn out_of_order(test: TestCaseView) -> bool {
    let arrange = markers_of(test, MarkerKind::Arrange);
    let act = markers_of(test, MarkerKind::Act);
    let assert = markers_of(test, MarkerKind::Assert);
    ||| arrange.len() > 1
    ||| assert.len() > 1
    ||| arrange.len() > 0 && act.len() > 0 && assert.len() > 0 && !(arrange[0].span.start.line
        < act[0].span.start.line < assert[0].span.start.line)
}

pub open spec fn out_of_order_findings(test: TestCaseView) -> Seq<FindingView> {
    if out_of_order(test) {
        seq![
            finding_of(
                test,
                AAA_OUT_OF_ORDER@,
                FindingCategory::Structure,
                test.function_span,
                "AAA sections must appear exactly once in Arrange, Act, Assert order"@,
                marker_evidence_of(test, test.markers, "marker"@, "AAA marker"@),
                "Duplicated or reordered sections make causality ambiguous."@,
                "Keep one ordered marker for each section."@,
                "Reorder the test without combining independent behaviors."@,
                None,
            ),
        ]
    } else {
        seq![]
    }
}

/// The findings about the three sections of a test.
pub open spec fn section_findings(test: TestCaseView) -> Seq<FindingView> {
    missing_section_findings(test, MarkerKind::Arrange, AAA_MISSING_ARRANGE@, "Arrange"@)
        + missing_section_findings(test, MarkerKind::Act, AAA_MISSING_ACT@, "Act"@)
        + missing_section_findings(test, MarkerKind::Assert, AAA_MISSING_ASSERT@, "Assert"@)
        + combined_findings(test) + out_of_order_findings(test)
}

fn evaluate_aaa(test: &TestCase, findings: &mut Vec<Finding>)
    ensures
        views(final(findings)@) == views(old(findings)@) + section_findings(test@),
{
    check_section(test, MarkerKind::Arrange, AAA_MISSING_ARRANGE, "Arrange", findings);
    check_section(test, MarkerKind::Act, AAA_MISSING_ACT, "Act", findings);
    check_section(test, MarkerKind::Assert, AAA_MISSING_ASSERT, "Assert", findings);
    let combined = combined_markers(test);
    let ghost before = views(findings@);
    if combined.len() > 0 {
        findings.push(
            finding(
                test,
                AAA_COMBINED,
                FindingCategory::Structure,
                combined[0].span,
                "AAA marker combines sections or contains extra text",
                marker_evidence(test, &combined, "marker", "Combined AAA marker"),
                RuleText {
                    why: "Combined markers obscure where the production stimulus ends and observation begins.",
                    summary: "Use exact standalone `// Arrange`, `// Act`, and `// Assert` markers.",
                    action: "Move explanatory comments beneath the relevant exact marker.",
                    example: None,
                },
            ),
        );
    }
    assert(views(findings@) =~= before + combined_findings(test@));
    let arrange = markers(test, MarkerKind::Arrange);
    let act = markers(test, MarkerKind::Act);
    let assert_markers = markers(test, MarkerKind::Assert);
    let wrong_count = arrange.len() > 1 || assert_markers.len() > 1;
    let wrong_order = arrange.len() > 0 && act.len() > 0 && assert_markers.len() > 0 && !(
    arrange[0].span.start.line < act[0].span.start.line && act[0].span.start.line
        < assert_markers[0].span.start.line);
    let ghost middle = views(findings@);
    if wrong_count || wrong_order {
        findings.push(
            finding(
                test,
                AAA_OUT_OF_ORDER,
                FindingCategory::Structure,
                test.function_span,
                "AAA sections must appear exactly once in Arrange, Act, Assert order",
                marker_evidence(test, &test.markers, "marker", "AAA marker"),
                RuleText {
                    why: "Duplicated or reordered sections make causality ambiguous.",
                    summary: "Keep one ordered marker for each section.",
                    action: "Reorder the test without combining independent behaviors.",
                    example: None,
                },
            ),
        );
    }
    assert(views(findings@) =~= middle + out_of_order_findings(test@));
    assert(views(findings@) =~= views(old(findings)@) + section_findings(test@));
}

/// The facts of one kind that can change the test's outcome.
pub open spec fn hygiene_facts(test: TestCaseView, kind: HygieneKind) -> Seq<HygieneFactView> {
    keep(
        test.hygiene,
        |f: HygieneFactView|
            f.kind == kind && (kind != HygieneKind::UncontrolledClock || clock_matters(test, f)),
    )
}

pub open spec fn call_evidence(
    test: TestCaseView,
    facts: Seq<HygieneFactView>,
) -> Seq<EvidenceView> {
    Seq::new(
        facts.len(),
        |i: int|
            evidence_of(
                test,
                "call"@,
                facts[i].span,
                "Uncontrolled call `"@ + facts[i].call + "`."@,
            ),
    )
}

pub open spec fn hygiene_findings_of(
    test: TestCaseView,
    kind: HygieneKind,
    rule_id: Seq<char>,
    message: Seq<char>,
    why: Seq<char>,
    summary: Seq<char>,
) -> Seq<FindingView> {
    let matching = hygiene_facts(test, kind);
    if matching.len() > 0 {
        seq![
            finding_of(
                test,
                rule_id,
                FindingCategory::Hygiene,
                matching[0].span,
                message,
                call_evidence(test, matching),
                why,
                summary,
                "If this behavior is intentional and cannot be controlled, add one exact reasoned exemption."@,
                None,
            ),
        ]
    } else {
        seq![]
    }
}

fn check_hygiene(
    test: &TestCase,
    kind: HygieneKind,
    rule_id: &str,
    message: &str,
    why: &str,
    summary: &str,
    findings: &mut Vec<Finding>,
)
    ensures
        views(final(findings)@) == views(old(findings)@) + hygiene_findings_of(
            test@,
            kind,
            rule_id@,
            message@,
            why@,
            summary@,
        ),
{
    let ghost p = |f: HygieneFactView|
        f.kind == kind && (kind != HygieneKind::UncontrolledClock || clock_matters(test@, f));
    let ghost all = test@.hygiene;
    let mut first: Option<SourceSpan> = None;
    let mut items: Vec<Evidence> = Vec::new();
    let mut i: usize = 0;
    assert(call_evidence(test@, keep(all.take(0), p)) =~= seq![]);
    while i < test.hygiene.len()
        invariant
            p == (|f: HygieneFactView|
                f.kind == kind && (kind != HygieneKind::UncontrolledClock || clock_matters(
                    test@,
                    f,
                ))),
            all == views(test.hygiene@),
            i <= test.hygiene@.len(),
            views(items@) == call_evidence(test@, keep(all.take(i as int), p)),
            first == (if keep(all.take(i as int), p).len() > 0 {
                Some(keep(all.take(i as int), p)[0].span)
            } else {
                None
            }),
        decreases test.hygiene@.len() - i,
    {
        let ghost kept = keep(all.take(i as int), p);
        proof {
            take_step(all, i as int);
        }
        let fact = &test.hygiene[i];
        if fact.kind == kind && (kind != HygieneKind::UncontrolledClock || clock_influences_test(
            test,
            fact,
        )) {
            let mut text = "Uncontrolled call `".to_owned();
            text.append(fact.call.as_str());
            text.append("`.");
            if first.is_none() {
                first = Some(fact.span);
            }
            items.push(evidence(test, "call", fact.span, text.as_str()));
            assert(views(items@) =~= call_evidence(test@, kept.push(all[i as int])));
        }
        i += 1;
    }
    proof {
        take_all(all);
    }
    if let Some(span) = first {
        findings.push(
            finding(
                test,
                rule_id,
                FindingCategory::Hygiene,
                span,
                message,
                items,
                RuleText {
                    why,
                    summary,
                    action: "If this behavior is intentional and cannot be controlled, add one exact reasoned exemption.",
                    example: None,
                },
            ),
        );
    }
    assert(views(findings@) =~= views(old(findings)@) + hygiene_findings_of(
        test@,
        kind,
        rule_id@,
        message@,
        why@,
        summary@,
    ));
}

/// The findings about what a test depends on besides its own inputs.
pub open spec fn hygiene_findings(test: TestCaseView) -> Seq<FindingView> {
    hygiene_findings_of(
        test,
        HygieneKind::FixedSleep,
        FIXED_SLEEP@,
        "test uses a fixed sleep"@,
        "Fixed delays make tests slow and timing-dependent without proving readiness."@,
        "Use virtual time, an injected clock, or wait for an observable readiness signal."@,
    ) + hygiene_findings_of(
        test,
        HygieneKind::UncontrolledClock,
        WALL_CLOCK@,
        "Act or assertion reads the uncontrolled wall clock"@,
        "Wall-clock scheduling and resolution can make the asserted outcome nondeterministic."@,
        "Inject or pause the clock and advance it deterministically."@,
    ) + hygiene_findings_of(
        test,
        HygieneKind::UncontrolledRandom,
        RANDOM@,
        "test uses an uncontrolled random generator"@,
        "An unrecorded random input makes failures difficult to reproduce and can leave cases untested."@,
        "Use a fixed seed or a property-test framework that reports and replays the seed."@,
    ) + hygiene_findings_of(
        test,
        HygieneKind::ProcessEnvironment,
        ENVIRONMENT@,
        "test mutates process-global environment directly"@,
        "A panic or parallel test can observe leaked process state."@,
        "Use a configured panic-safe RAII environment guard."@,
    )
}

fn evaluate_hygiene(test: &TestCase, findings: &mut Vec<Finding>)
    ensures
        views(final(findings)@) == views(old(findings)@) + hygiene_findings(test@),
{
    check_hygiene(
        test,
        HygieneKind::FixedSleep,
        FIXED_SLEEP,
        "test uses a fixed sleep",
        "Fixed delays make tests slow and timing-dependent without proving readiness.",
        "Use virtual time, an injected clock, or wait for an observable readiness signal.",
        findings,
    );
    check_hygiene(
        test,
        HygieneKind::UncontrolledClock,
        WALL_CLOCK,
        "Act or assertion reads the uncontrolled wall clock",
        "Wall-clock scheduling and resolution can make the asserted outcome nondeterministic.",
        "Inject or pause the clock and advance it deterministically.",
        findings,
    );
    check_hygiene(
        test,
        HygieneKind::UncontrolledRandom,
        RANDOM,
        "test uses an uncontrolled random generator",
        "An unrecorded random input makes failures difficult to reproduce and can leave cases untested.",
        "Use a fixed seed or a property-test framework that reports and replays the seed.",
        findings,
    );
    check_hygiene(
        test,
        HygieneKind::ProcessEnvironment,
        ENVIRONMENT,
        "test mutates process-global environment directly",
        "A panic or parallel test can observe leaked process state.",
        "Use a configured panic-safe RAII environment guard.",
        findings,
    );
    assert(views(findings@) =~= views(old(findings)@) + hygiene_findings(test@));
}

pub open spec fn naming_findings(test: TestCaseView) -> Seq<FindingView> {
    if has_prefix(test.name, "should_"@) {
        seq![]
    } else {
        seq![
            finding_of(
                test,
                NAMING_SHOULD_PREFIX@,
                FindingCategory::Structure,
                test.name_span,
                "test name does not start with `should_`"@,
                seq![],
                "Behavior-oriented names make the promised outcome visible in failures and reports."@,
                "Rename the test around one observable behavior."@,
                "Use `should_<behavior>_given_<context>_when_<condition>` where useful."@,
                Some("fn should_return_not_found_given_missing_key() { ... }"@),
            ),
        ]
    }
}

fn check_name(test: &TestCase, findings: &mut Vec<Finding>)
    ensures
        views(final(findings)@) == views(old(findings)@) + naming_findings(test@),
{
    if !starts_with(test.name.as_str(), "should_") {
        findings.push(
            finding(
                test,
                NAMING_SHOULD_PREFIX,
                FindingCategory::Structure,
                test.name_span,
                "test name does not start with `should_`",
                Vec::new(),
                RuleText {
                    why: "Behavior-oriented names make the promised outcome visible in failures and reports.",
                    summary: "Rename the test around one observable behavior.",
                    action: "Use `should_<behavior>_given_<context>_when_<condition>` where useful.",
                    example: Some("fn should_return_not_found_given_missing_key() { ... }"),
                },
            ),
        );
    }
    assert(views(findings@) =~= views(old(findings)@) + naming_findings(test@));
}

/// The calls of the Act section, as evidence.
pub open spec fn act_call_evidence(
    test: TestCaseView,
    calls: Seq<super::model::CallFactView>,
) -> Seq<EvidenceView> {
    flat(
        calls,
        |c: super::model::CallFactView|
            if c.section == Section::Act {
                seq![
                    evidence_of(
                        test,
                        "call"@,
                        c.span,
                        "Act-section call `"@ + c.qualified_name + "`."@,
                    ),
                ]
            } else {
                seq![]
            },
    )
}

pub open spec fn multiple_act_findings(test: TestCaseView) -> Seq<FindingView> {
    let acts = markers_of(test, MarkerKind::Act);
    if acts.len() > 1 {
        seq![
            finding_of(
                test,
                MULTIPLE_ACTS@,
                FindingCategory::Structure,
                acts[1].span,
                "test has more than one Act section"@,
                marker_evidence_of(test, acts, "act"@, "Act section"@) + act_call_evidence(
                    test,
                    test.calls,
                ),
                "Multiple independent Acts make it unclear which behavior a failure proves."@,
                "Split the Acts into separate single-behavior tests."@,
                "Keep one production stimulus and its directly related observations in each test."@,
                None,
            ),
        ]
    } else {
        seq![]
    }
}

fn check_acts(test: &TestCase, findings: &mut Vec<Finding>)
    ensures
        views(final(findings)@) == views(old(findings)@) + multiple_act_findings(test@),
{
    let acts = markers(test, MarkerKind::Act);
    if acts.len() > 1 {
        let mut items = marker_evidence(test, &acts, "act", "Act section");
        let ghost first = views(items@);
        let ghost all = test@.calls;
        let mut i: usize = 0;
        assert(views(items@) =~= first + act_call_evidence(test@, all.take(0)));
        while i < test.calls.len()
            invariant
                all == views(test.calls@),
                i <= test.calls@.len(),
                views(items@) == first + act_call_evidence(test@, all.take(i as int)),
            decreases test.calls@.len() - i,
        {
            proof {
                take_step(all, i as int);
            }
            let ghost before = views(items@);
            if test.calls[i].section == Section::Act {
                let mut text = "Act-section call `".to_owned();
                text.append(test.calls[i].qualified_name.as_str());
                text.append("`.");
                items.push(evidence(test, "call", test.calls[i].span, text.as_str()));
            }
            i += 1;
            assert(views(items@) =~= first + act_call_evidence(test@, all.take(i as int)));
        }
        proof {
            take_all(all);
        }
        findings.push(
            finding(
                test,
                MULTIPLE_ACTS,
                FindingCategory::Structure,
                acts[1].span,
                "test has more than one Act section",
                items,
                RuleText {
                    why: "Multiple independent Acts make it unclear which behavior a failure proves.",
                    summary: "Split the Acts into separate single-behavior tests.",
                    action: "Keep one production stimulus and its directly related observations in each test.",
                    example: None,
                },
            ),
        );
    }
    assert(views(findings@) =~= views(old(findings)@) + multiple_act_findings(test@));
}

pub open spec fn ignored_findings(test: TestCaseView) -> Seq<FindingView> {
    if test.ignored is Some && is_blank(test.ignored->0) {
        seq![
            finding_of(
                test,
                IGNORE_MISSING_REASON@,
                FindingCategory::Hygiene,
                match test.ignore_span {
                    Some(span) => span,
                    None => test.name_span,
                },
                "ignored test has no reason"@,
                seq![],
                "An unexplained ignored test can silently remove intended coverage indefinitely."@,
                "Add a concrete reason to the ignore attribute."@,
                "Use `#[ignore = \"requires the Sqrzl emulator\"]`."@,
                Some("#[ignore = \"requires external fixture\"]"@),
            ),
        ]
    } else {
        seq![]
    }
}

fn check_ignored(test: &TestCase, findings: &mut Vec<Finding>)
    ensures
        views(final(findings)@) == views(old(findings)@) + ignored_findings(test@),
{
    let unexplained = match &test.ignored {
        Some(reason) => blank(reason.as_str()),
        None => false,
    };
    if unexplained {
        let span: SourceSpan = match test.ignore_span {
            Some(span) => span,
            None => test.name_span,
        };
        findings.push(
            finding(
                test,
                IGNORE_MISSING_REASON,
                FindingCategory::Hygiene,
                span,
                "ignored test has no reason",
                Vec::new(),
                RuleText {
                    why: "An unexplained ignored test can silently remove intended coverage indefinitely.",
                    summary: "Add a concrete reason to the ignore attribute.",
                    action: "Use `#[ignore = \"requires the Sqrzl emulator\"]`.",
                    example: Some("#[ignore = \"requires external fixture\"]"),
                },
            ),
        );
    }
    assert(views(findings@) =~= views(old(findings)@) + ignored_findings(test@));
}

pub open spec fn missing_oracle_findings(test: TestCaseView) -> Seq<FindingView> {
    if post_act_oracles_of(test).len() == 0 && !test.should_panic && !unresolved_oracle_gap(test) {
        seq![
            finding_of(
                test,
                ORACLE_MISSING@,
                FindingCategory::Semantics,
                test.function_span,
                "test has no observable oracle"@,
                seq![],
                "The test can execute production code without proving any result or state transition."@,
                "Assert the Act result or query and assert an observable post-Act state."@,
                "Add an explicit assertion, a resolved assertion helper, or a success-propagating `?` tied to the Act."@,
                Some("assert_eq!(actual, expected);"@),
            ),
        ]
    } else {
        seq![]
    }
}

fn check_oracle_present(test: &TestCase, findings: &mut Vec<Finding>)
    ensures
        views(final(findings)@) == views(old(findings)@) + missing_oracle_findings(test@),
{
    if post_act_oracles(test).len() == 0 && !test.should_panic && !has_unresolved_oracle_gap(
        test,
    ) {
        findings.push(
            finding(
                test,
                ORACLE_MISSING,
                FindingCategory::Semantics,
                test.function_span,
                "test has no observable oracle",
                Vec::new(),
                RuleText {
                    why: "The test can execute production code without proving any result or state transition.",
                    summary: "Assert the Act result or query and assert an observable post-Act state.",
                    action: "Add an explicit assertion, a resolved assertion helper, or a success-propagating `?` tied to the Act.",
                    example: Some("assert_eq!(actual, expected);"),
                },
            ),
        );
    }
    assert(views(findings@) =~= views(old(findings)@) + missing_oracle_findings(test@));
}

pub open spec fn oracle_evidence(
    test: TestCaseView,
    oracles: Seq<OracleFactView>,
    message: Seq<char>,
) -> Seq<EvidenceView> {
    Seq::new(oracles.len(), |i: int| evidence_of(test, "oracle"@, oracles[i].span, message))
}

pub open spec fn vacuous_findings(test: TestCaseView) -> Seq<FindingView> {
    let vacuous = keep(test.oracles, |o: OracleFactView| o.tautological);
    if vacuous.len() > 0 {
        seq![
            finding_of(
                test,
                ORACLE_VACUOUS@,
                FindingCategory::Semantics,
                vacuous[0].span,
                "assertion is tautological"@,
                oracle_evidence(test, vacuous, "This assertion cannot distinguish behavior."@),
                "An always-true or self-comparison oracle passes regardless of production behavior."@,
                "Compare an Act-derived actual value with an independently chosen expectation."@,
                "Replace constants or self-comparisons with an observable derived from the Act."@,
                Some("assert_eq!(actual, independently_defined_expected);"@),
            ),
        ]
    } else {
        seq![]
    }
}

fn check_vacuous(test: &TestCase, findings: &mut Vec<Finding>)
    ensures
        views(final(findings)@) == views(old(findings)@) + vacuous_findings(test@),
{
    let ghost p = |o: OracleFactView| o.tautological;
    let ghost all = test@.oracles;
    let ghost message = "This assertion cannot distinguish behavior."@;
    let mut first: Option<SourceSpan> = None;
    let mut items: Vec<Evidence> = Vec::new();
    let mut i: usize = 0;
    assert(oracle_evidence(test@, keep(all.take(0), p), message) =~= seq![]);
    while i < test.oracles.len()
        invariant
            p == (|o: OracleFactView| o.tautological),
            all == views(test.oracles@),
            message == "This assertion cannot distinguish behavior."@,
            i <= test.oracles@.len(),
            views(items@) == oracle_evidence(test@, keep(all.take(i as int), p), message),
            first == (if keep(all.take(i as int), p).len() > 0 {
                Some(keep(all.take(i as int), p)[0].span)
            } else {
                None
            }),
        decreases test.oracles@.len() - i,
    {
        let ghost kept = keep(all.take(i as int), p);
        proof {
            take_step(all, i as int);
        }
        if test.oracles[i].tautological {
            let span: SourceSpan = test.oracles[i].span;
            if first.is_none() {
                first = Some(span);
            }
            items.push(
                evidence(test, "oracle", span, "This assertion cannot distinguish behavior."),
            );
            assert(views(items@) =~= oracle_evidence(test@, kept.push(all[i as int]), message));
        }
        i += 1;
    }
    proof {
        take_all(all);
    }
    if let Some(span) = first {
        findings.push(
            finding(
                test,
                ORACLE_VACUOUS,
                FindingCategory::Semantics,
                span,
                "assertion is tautological",
                items,
                RuleText {
                    why: "An always-true or self-comparison oracle passes regardless of production behavior.",
                    summary: "Compare an Act-derived actual value with an independently chosen expectation.",
                    action: "Replace constants or self-comparisons with an observable derived from the Act.",
                    example: Some("assert_eq!(actual, independently_defined_expected);"),
                },
            ),
        );
    }
    assert(views(findings@) =~= views(old(findings)@) + vacuous_findings(test@));
}

pub open spec fn disconnected_findings(test: TestCaseView) -> Seq<FindingView> {
    if reports_disconnected(test) {
        let oracles = disconnected_candidates_of(test);
        let act = markers_of(test, MarkerKind::Act)[0];
        seq![
            finding_of(
                test,
                ORACLE_DISCONNECTED@,
                FindingCategory::Semantics,
                oracles[0].span,
                "resolved post-Act assertions do not observe the Act"@,
                seq![evidence_of(test, "act"@, act.span, "The Act begins here."@)]
                    + oracle_evidence(
                    test,
                    oracles,
                    "This resolved post-Act oracle does not reference an Act output or effect carrier."@,
                ),
                "The test can keep passing when the behavior under test returns the wrong value or fails to change state."@,
                "Assert an Act output or read post-Act state through the same receiver or effect carrier."@,
                "Use the value bound in Act, or query state using an object/path passed to Act."@,
                Some("assert_eq!(result, expected);"@),
            ),
        ]
    } else {
        seq![]
    }
}

fn check_connected(test: &TestCase, findings: &mut Vec<Finding>)
    ensures
        views(final(findings)@) == views(old(findings)@) + disconnected_findings(test@),
{
    if should_report_disconnected(test) {
        let oracles = disconnected_candidates(test);
        let ghost all = views(oracles@);
        let ghost message =
            "This resolved post-Act oracle does not reference an Act output or effect carrier."@;
        let acts = markers(test, MarkerKind::Act);
        let mut items: Vec<Evidence> = Vec::new();
        items.push(evidence(test, "act", acts[0].span, "The Act begins here."));
        let ghost first = views(items@);
        assert(first =~= seq![
            evidence_of(test@, "act"@, acts@[0].span, "The Act begins here."@),
        ]);
        let mut i: usize = 0;
        while i < oracles.len()
            invariant
                all == views(oracles@),
                message
                    == "This resolved post-Act oracle does not reference an Act output or effect carrier."@,
                i <= oracles@.len(),
                views(items@) == first + oracle_evidence(test@, all, message).take(i as int),
            decreases oracles@.len() - i,
        {
            items.push(
                evidence(
                    test,
                    "oracle",
                    oracles[i].span,
                    "This resolved post-Act oracle does not reference an Act output or effect carrier.",
                ),
            );
            i += 1;
            assert(views(items@) =~= first + oracle_evidence(test@, all, message).take(i as int));
        }
        assert(oracle_evidence(test@, all, message).take(all.len() as int) =~= oracle_evidence(
            test@,
            all,
            message,
        ));
        findings.push(
            finding(
                test,
                ORACLE_DISCONNECTED,
                FindingCategory::Semantics,
                oracles[0].span,
                "resolved post-Act assertions do not observe the Act",
                items,
                RuleText {
                    why: "The test can keep passing when the behavior under test returns the wrong value or fails to change state.",
                    summary: "Assert an Act output or read post-Act state through the same receiver or effect carrier.",
                    action: "Use the value bound in Act, or query state using an object/path passed to Act.",
                    example: Some("assert_eq!(result, expected);"),
                },
            ),
        );
    }
    assert(views(findings@) =~= views(old(findings)@) + disconnected_findings(test@));
}

pub open spec fn bare_panic_findings(test: TestCaseView) -> Seq<FindingView> {
    if test.should_panic && match test.should_panic_expected {
        Some(expected) => is_blank(expected),
        None => true,
    } {
        seq![
            finding_of(
                test,
                PANIC_MISSING_EXPECTED@,
                FindingCategory::Semantics,
                test.function_span,
                "panic test accepts any panic"@,
                seq![],
                "A setup panic or unrelated defect can satisfy a bare `#[should_panic]` test."@,
                "Declare the stable expected panic text or prefer an explicit error assertion."@,
                "Use `#[should_panic(expected = \"specific invariant\")]`."@,
                Some("#[should_panic(expected = \"capacity must be positive\")]"@),
            ),
        ]
    } else {
        seq![]
    }
}

fn check_panic(test: &TestCase, findings: &mut Vec<Finding>)
    ensures
        views(final(findings)@) == views(old(findings)@) + bare_panic_findings(test@),
{
    let unspecific = match &test.should_panic_expected {
        Some(expected) => blank(expected.as_str()),
        None => true,
    };
    if test.should_panic && unspecific {
        findings.push(
            finding(
                test,
                PANIC_MISSING_EXPECTED,
                FindingCategory::Semantics,
                test.function_span,
                "panic test accepts any panic",
                Vec::new(),
                RuleText {
                    why: "A setup panic or unrelated defect can satisfy a bare `#[should_panic]` test.",
                    summary: "Declare the stable expected panic text or prefer an explicit error assertion.",
                    action: "Use `#[should_panic(expected = \"specific invariant\")]`.",
                    example: Some("#[should_panic(expected = \"capacity must be positive\")]"),
                },
            ),
        );
    }
    assert(views(findings@) =~= views(old(findings)@) + bare_panic_findings(test@));
}

/// Everything that the rules find in a test, rule by rule.
pub open spec fn raw_findings(test: TestCaseView, policy: TestPolicyView) -> Seq<FindingView> {
    naming_findings(test) + (if test.line_count > policy.aaa_min_lines {
        section_findings(test)
    } else {
        seq![]
    }) + multiple_act_findings(test) + ignored_findings(test) + missing_oracle_findings(test)
        + vacuous_findings(test) + disconnected_findings(test) + bare_panic_findings(test)
        + hygiene_findings(test)
}

/// A finding with more evidence.
pub open spec fn with_evidence(finding: FindingView, more: Seq<EvidenceView>) -> FindingView {
    FindingView { evidence: finding.evidence + more, ..finding }
}

/// The position of the finding of a rule.
pub open spec fn rule_position(findings: Seq<FindingView>, rule_id: Seq<char>) -> Option<int>
    decreases findings.len(),
{
    if findings.len() == 0 {
        None
    } else if findings.last().rule_id == rule_id {
        Some(findings.len() - 1)
    } else {
        rule_position(findings.drop_last(), rule_id)
    }
}

/// One more finding: a new one, or more evidence for the finding of its rule.
pub open spec fn merged(findings: Seq<FindingView>, finding: FindingView) -> Seq<FindingView> {
    match rule_position(findings, finding.rule_id) {
        Some(i) => findings.update(i, with_evidence(findings[i], finding.evidence)),
        None => findings.push(finding),
    }
}

/// The findings with one for each rule, which has the evidence of all of them.
pub open spec fn merged_by_rule(findings: Seq<FindingView>) -> Seq<FindingView>
    decreases findings.len(),
{
    if findings.len() == 0 {
        seq![]
    } else {
        merged(merged_by_rule(findings.drop_last()), findings.last())
    }
}

/// Orders findings by rule.
pub struct ByRule;

impl Order<Finding> for ByRule {
    open spec fn before(a: FindingView, b: FindingView) -> bool {
        text_less(a.rule_id, b.rule_id)
    }

    fn is_before(a: &Finding, b: &Finding) -> (r: bool) {
        less(a.rule_id.as_str(), b.rule_id.as_str())
    }

    proof fn strict_weak(a: FindingView, b: FindingView, c: FindingView) {
        text_order(a.rule_id, b.rule_id, c.rule_id);
    }
}

fn position_of_rule(findings: &Vec<Finding>, rule_id: &str) -> (r: Option<usize>)
    ensures
        match r {
            Some(i) => i < findings@.len() && rule_position(views(findings@), rule_id@) == Some(
                i as int,
            ),
            None => rule_position(views(findings@), rule_id@) is None,
        },
{
    let ghost all = views(findings@);
    let mut i: usize = findings.len();
    proof {
        take_all(all);
    }
    while i > 0
        invariant
            all == views(findings@),
            i <= findings@.len(),
            rule_position(all, rule_id@) == rule_position(all.take(i as int), rule_id@),
        decreases i,
    {
        proof {
            take_step(all, i - 1);
        }
        if same(findings[i - 1].rule_id.as_str(), rule_id) {
            return Some(i - 1);
        }
        i -= 1;
    }
    None
}

/// One finding for each rule, in the order of the rules.
pub fn deduplicate(findings: Vec<Finding>) -> (r: Vec<Finding>)
    ensures
        views(r@) == sorted::<Finding, ByRule>(merged_by_rule(views(findings@))),
{
    let ghost all = views(findings@);
    let mut out: Vec<Finding> = Vec::new();
    proof {
        assert(all.take(0) =~= Seq::empty());
    }
    for finding in it: findings
        invariant
            all == views(it.seq()),
            views(out@) == merged_by_rule(all.take(it.index() as int)),
    {
        proof {
            take_step(all, it.index() as int);
        }
        let ghost before = views(out@);
        match position_of_rule(&out, finding.rule_id.as_str()) {
            Some(i) => {
                let mut kept = out.remove(i);
                let mut more = finding.evidence;
                kept.evidence.append(&mut more);
                out.insert(i, kept);
                assert(views(out@) =~= before.update(
                    i as int,
                    with_evidence(before[i as int], finding@.evidence),
                ));
            },
            None => {
                out.push(finding);
            },
        }
    }
    proof {
        take_all(all);
    }
    sort::<Finding, ByRule>(out)
}

/// What is found in a test: one finding for each rule, in the order of the rules.
pub open spec fn test_findings(test: TestCaseView, policy: TestPolicyView) -> Seq<FindingView> {
    sorted::<Finding, ByRule>(merged_by_rule(raw_findings(test, policy)))
}

pub fn evaluate_test(test: &TestCase, policy: &TestPolicyConfig) -> (r: Vec<Finding>)
    ensures
        views(r@) == test_findings(test@, policy@),
{
    let mut findings: Vec<Finding> = Vec::new();
    check_name(test, &mut findings);
    if test.line_count > policy.aaa_min_lines {
        evaluate_aaa(test, &mut findings);
    }
    check_acts(test, &mut findings);
    check_ignored(test, &mut findings);
    check_oracle_present(test, &mut findings);
    check_vacuous(test, &mut findings);
    check_connected(test, &mut findings);
    check_panic(test, &mut findings);
    evaluate_hygiene(test, &mut findings);
    assert(views(findings@) =~= raw_findings(test@, policy@));
    deduplicate(findings)
}

/// What the rules say of a set of tests.
pub struct Evaluation {
    pub findings: Vec<Finding>,
    pub exemptions: Vec<AppliedExemption>,
    pub analysis_gaps: Vec<AnalysisGap>,
}

/// The findings of a test that no exemption accepts.
pub open spec fn reported(test: TestCaseView, policy: TestPolicyView) -> Seq<FindingView> {
    flat(
        test_findings(test, policy),
        |f: FindingView|
            match exemption_for(policy.exemptions, f.rule_id, test.path, test.qualified_name) {
                Some(_) => seq![],
                None => seq![f],
            },
    )
}

/// The findings of a test that an exemption accepts.
pub open spec fn accepted(test: TestCaseView, policy: TestPolicyView) -> Seq<AppliedExemptionView> {
    flat(
        test_findings(test, policy),
        |f: FindingView|
            match exemption_for(policy.exemptions, f.rule_id, test.path, test.qualified_name) {
                Some(e) => seq![
                    AppliedExemptionView {
                        rule_id: f.rule_id,
                        test: identity_of(test),
                        reason: e.reason,
                        fingerprint: f.fingerprint,
                    },
                ],
                None => seq![],
            },
    )
}

/// Orders findings by path, test, rule and line.
pub struct ByPlace;

impl Order<Finding> for ByPlace {
    open spec fn before(a: FindingView, b: FindingView) -> bool {
        then_text(
            a.primary.path,
            b.primary.path,
            then_text(
                a.test.qualified_name,
                b.test.qualified_name,
                then_text(
                    a.rule_id,
                    b.rule_id,
                    a.primary.span.start.line < b.primary.span.start.line,
                ),
            ),
        )
    }

    fn is_before(a: &Finding, b: &Finding) -> (r: bool) {
        if !same(a.primary.path.as_str(), b.primary.path.as_str()) {
            return less(a.primary.path.as_str(), b.primary.path.as_str());
        }
        proof {
            text_less_irreflexive(a.primary.path@);
            text_less_irreflexive(a.test.qualified_name@);
            text_less_irreflexive(a.rule_id@);
        }
        if !same(a.test.qualified_name.as_str(), b.test.qualified_name.as_str()) {
            return less(a.test.qualified_name.as_str(), b.test.qualified_name.as_str());
        }
        if !same(a.rule_id.as_str(), b.rule_id.as_str()) {
            return less(a.rule_id.as_str(), b.rule_id.as_str());
        }
        a.primary.span.start.line < b.primary.span.start.line
    }

    proof fn strict_weak(a: FindingView, b: FindingView, c: FindingView) {
        text_order(a.primary.path, b.primary.path, c.primary.path);
        text_order(b.primary.path, a.primary.path, c.primary.path);
        text_order(b.primary.path, c.primary.path, a.primary.path);
        text_order(a.test.qualified_name, b.test.qualified_name, c.test.qualified_name);
        text_order(b.test.qualified_name, a.test.qualified_name, c.test.qualified_name);
        text_order(b.test.qualified_name, c.test.qualified_name, a.test.qualified_name);
        text_order(a.rule_id, b.rule_id, c.rule_id);
        text_order(b.rule_id, a.rule_id, c.rule_id);
        text_order(b.rule_id, c.rule_id, a.rule_id);
    }
}

/// Orders applied exemptions by test and rule.
pub struct ByTest;

impl Order<AppliedExemption> for ByTest {
    open spec fn before(a: AppliedExemptionView, b: AppliedExemptionView) -> bool {
        then_text(
            a.test.qualified_name,
            b.test.qualified_name,
            text_less(a.rule_id, b.rule_id),
        )
    }

    fn is_before(a: &AppliedExemption, b: &AppliedExemption) -> (r: bool) {
        if !same(a.test.qualified_name.as_str(), b.test.qualified_name.as_str()) {
            return less(a.test.qualified_name.as_str(), b.test.qualified_name.as_str());
        }
        proof {
            text_less_irreflexive(a.test.qualified_name@);
        }
        less(a.rule_id.as_str(), b.rule_id.as_str())
    }

    proof fn strict_weak(a: AppliedExemptionView, b: AppliedExemptionView, c: AppliedExemptionView) {
        text_order(a.test.qualified_name, b.test.qualified_name, c.test.qualified_name);
        text_order(b.test.qualified_name, a.test.qualified_name, c.test.qualified_name);
        text_order(b.test.qualified_name, c.test.qualified_name, a.test.qualified_name);
        text_order(a.rule_id, b.rule_id, c.rule_id);
    }
}

/// Orders gaps by path, test, code and place.
pub struct ByGap;

impl Order<AnalysisGap> for ByGap {
    open spec fn before(a: AnalysisGapView, b: AnalysisGapView) -> bool {
        then_text(
            a.location.path,
            b.location.path,
            then_text(
                a.test.qualified_name,
                b.test.qualified_name,
                then_text(
                    a.code,
                    b.code,
                    a.location.span.start.precedes(b.location.span.start),
                ),
            ),
        )
    }

    fn is_before(a: &AnalysisGap, b: &AnalysisGap) -> (r: bool) {
        if !same(a.location.path.as_str(), b.location.path.as_str()) {
            return less(a.location.path.as_str(), b.location.path.as_str());
        }
        proof {
            text_less_irreflexive(a.location.path@);
            text_less_irreflexive(a.test.qualified_name@);
            text_less_irreflexive(a.code@);
        }
        if !same(a.test.qualified_name.as_str(), b.test.qualified_name.as_str()) {
            return less(a.test.qualified_name.as_str(), b.test.qualified_name.as_str());
        }
        if !same(a.code.as_str(), b.code.as_str()) {
            return less(a.code.as_str(), b.code.as_str());
        }
        a.location.span.start.is_before(&b.location.span.start)
    }

    proof fn strict_weak(a: AnalysisGapView, b: AnalysisGapView, c: AnalysisGapView) {
        text_order(a.location.path, b.location.path, c.location.path);
        text_order(b.location.path, a.location.path, c.location.path);
        text_order(b.location.path, c.location.path, a.location.path);
        text_order(a.test.qualified_name, b.test.qualified_name, c.test.qualified_name);
        text_order(b.test.qualified_name, a.test.qualified_name, c.test.qualified_name);
        text_order(b.test.qualified_name, c.test.qualified_name, a.test.qualified_name);
        text_order(a.code, b.code, c.code);
        text_order(b.code, a.code, c.code);
        text_order(b.code, c.code, a.code);
    }
}

pub open spec fn reported_findings(
    tests: Seq<TestCaseView>,
    policy: TestPolicyView,
) -> Seq<FindingView> {
    flat(tests, |t: TestCaseView| reported(t, policy))
}

pub open spec fn accepted_findings(
    tests: Seq<TestCaseView>,
    policy: TestPolicyView,
) -> Seq<AppliedExemptionView> {
    flat(tests, |t: TestCaseView| accepted(t, policy))
}

pub open spec fn intent_gaps(tests: Seq<TestCaseView>) -> Seq<AnalysisGapView> {
    flat(tests, |t: TestCaseView| intent_gaps_of(t))
}

fn divide(
    test: &TestCase,
    policy: &TestPolicyConfig,
    findings: &mut Vec<Finding>,
    exemptions: &mut Vec<AppliedExemption>,
)
    ensures
        views(final(findings)@) == views(old(findings)@) + reported(test@, policy@),
        views(final(exemptions)@) == views(old(exemptions)@) + accepted(test@, policy@),
{
    let found = evaluate_test(test, policy);
    let ghost all = views(found@);
    let ghost kept = |f: FindingView|
        match exemption_for(
            policy@.exemptions,
            f.rule_id,
            test@.path,
            test@.qualified_name,
        ) {
            Some(_) => seq![],
            None => seq![f],
        };
    let ghost let_off = |f: FindingView|
        match exemption_for(policy@.exemptions, f.rule_id, test@.path, test@.qualified_name) {
            Some(e) => seq![
                AppliedExemptionView {
                    rule_id: f.rule_id,
                    test: identity_of(test@),
                    reason: e.reason,
                    fingerprint: f.fingerprint,
                },
            ],
            None => seq![],
        };
    let ghost findings_before = views(findings@);
    let ghost exemptions_before = views(exemptions@);
    assert(findings_before =~= findings_before + flat(all.take(0), kept));
    assert(exemptions_before =~= exemptions_before + flat(all.take(0), let_off));
    for finding in it: found
        invariant
            all == views(it.seq()),
            kept == (|f: FindingView|
                match exemption_for(
                    policy@.exemptions,
                    f.rule_id,
                    test@.path,
                    test@.qualified_name,
                ) {
                    Some(_) => seq![],
                    None => seq![f],
                }),
            let_off == (|f: FindingView|
                match exemption_for(
                    policy@.exemptions,
                    f.rule_id,
                    test@.path,
                    test@.qualified_name,
                ) {
                    Some(e) => seq![
                        AppliedExemptionView {
                            rule_id: f.rule_id,
                            test: identity_of(test@),
                            reason: e.reason,
                            fingerprint: f.fingerprint,
                        },
                    ],
                    None => seq![],
                }),
            views(findings@) == findings_before + flat(all.take(it.index() as int), kept),
            views(exemptions@) == exemptions_before + flat(all.take(it.index() as int), let_off),
    {
        proof {
            take_step(all, it.index() as int);
        }
        let ghost f0 = views(findings@);
        let ghost e0 = views(exemptions@);
        let ghost next = finding@;
        match policy.exemption(
            finding.rule_id.as_str(),
            test.path.as_str(),
            test.qualified_name.as_str(),
        ) {
            Some(exemption) => {
                exemptions.push(
                    AppliedExemption {
                        rule_id: finding.rule_id,
                        test: identity(test),
                        reason: exemption.reason.clone(),
                        fingerprint: finding.fingerprint,
                    },
                );
            },
            None => {
                findings.push(finding);
            },
        }
        proof {
            assert(views(findings@) =~= f0 + kept(next));
            assert(views(exemptions@) =~= e0 + let_off(next));
            assert(views(findings@) =~= findings_before + (flat(all.take(it.index() as int), kept)
                + kept(next)));
            assert(views(exemptions@) =~= exemptions_before + (flat(
                all.take(it.index() as int),
                let_off,
            ) + let_off(next)));
        }
    }
    proof {
        take_all(all);
    }
}

/// What one more test adds to the findings and the exemptions.
proof fn one_test_more(tests: Seq<TestCaseView>, policy: TestPolicyView, i: int)
    requires
        0 <= i < tests.len(),
    ensures
        reported_findings(tests.take(i + 1), policy) == reported_findings(tests.take(i), policy)
            + reported(tests[i], policy),
        accepted_findings(tests.take(i + 1), policy) == accepted_findings(tests.take(i), policy)
            + accepted(tests[i], policy),
{
    take_step(tests, i);
}

proof fn gaps_of_one_test_more(tests: Seq<TestCaseView>, i: int)
    requires
        0 <= i < tests.len(),
    ensures
        intent_gaps(tests.take(i + 1)) == intent_gaps(tests.take(i)) + intent_gaps_of(tests[i]),
{
    take_step(tests, i);
}

/// The findings of all tests, and the exemptions that let some off.
#[verifier::spinoff_prover]
fn gather_findings(tests: &Vec<TestCase>, policy: &TestPolicyConfig) -> (r: (
    Vec<Finding>,
    Vec<AppliedExemption>,
))
    ensures
        views(r.0@) == reported_findings(views(tests@), policy@),
        views(r.1@) == accepted_findings(views(tests@), policy@),
{
    let ghost all = views(tests@);
    let mut findings: Vec<Finding> = Vec::new();
    let mut exemptions: Vec<AppliedExemption> = Vec::new();
    let mut i: usize = 0;
    while i < tests.len()
        invariant
            all == views(tests@),
            i <= tests@.len(),
            views(findings@) == reported_findings(all.take(i as int), policy@),
            views(exemptions@) == accepted_findings(all.take(i as int), policy@),
        decreases tests@.len() - i,
    {
        proof {
            one_test_more(all, policy@, i as int);
        }
        divide(&tests[i], policy, &mut findings, &mut exemptions);
        i += 1;
    }
    proof {
        take_all(all);
    }
    (findings, exemptions)
}

/// The gaps about the intent of all tests.
#[verifier::spinoff_prover]
fn gather_intent_gaps(tests: &Vec<TestCase>) -> (r: Vec<AnalysisGap>)
    ensures
        views(r@) == intent_gaps(views(tests@)),
{
    let ghost all = views(tests@);
    let mut gaps: Vec<AnalysisGap> = Vec::new();
    let mut i: usize = 0;
    while i < tests.len()
        invariant
            all == views(tests@),
            i <= tests@.len(),
            views(gaps@) == intent_gaps(all.take(i as int)),
        decreases tests@.len() - i,
    {
        proof {
            gaps_of_one_test_more(all, i as int);
        }
        let mut more = evaluate_intent_gaps(&tests[i]);
        gaps.append(&mut more);
        i += 1;
    }
    proof {
        take_all(all);
    }
    gaps
}

/// Applies the rules and the policy's exemptions to the tests.
#[verifier::spinoff_prover]
pub fn evaluate(tests: &Vec<TestCase>, policy: &TestPolicyConfig) -> (r: Evaluation)
    ensures
        views(r.findings@) == sorted::<Finding, ByPlace>(
            reported_findings(views(tests@), policy@),
        ),
        views(r.exemptions@) == sorted::<AppliedExemption, ByTest>(
            accepted_findings(views(tests@), policy@),
        ),
        views(r.analysis_gaps@) == sorted::<AnalysisGap, ByGap>(intent_gaps(views(tests@))),
{
    let (findings, exemptions) = gather_findings(tests, policy);
    let gaps = gather_intent_gaps(tests);
    Evaluation {
        findings: sort::<Finding, ByPlace>(findings),
        exemptions: sort::<AppliedExemption, ByTest>(exemptions),
        analysis_gaps: sort::<AnalysisGap, ByGap>(gaps),
    }
}

} // verus!
