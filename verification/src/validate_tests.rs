//! Validation of a repository's tests: what is read, found and reported.

pub mod alias_laws;
pub mod aliases;
pub mod config;
pub mod config_laws;
pub mod counts;
pub mod fact_laws;
pub mod facts;
pub mod gap_laws;
pub mod independence;
pub mod intent_laws;
pub mod laws;
pub mod marker_laws;
pub mod markers;
pub mod model;
pub mod oracle_laws;
pub mod parse;
pub mod report;
pub mod report_laws;
pub mod rule_laws;
pub mod rules;
pub mod rust;
pub mod scope_laws;
pub mod session_laws;
pub mod step_laws;
pub mod syntax;
pub mod test_laws;
pub mod visitor;
pub mod walk_laws;

use vstd::prelude::*;

use crate::copies::{copy_all, option_view};
use crate::order::{sort, sorted, Order};
use crate::seqs::{flat, take_all, take_step, views};
use crate::text::{
    chars, ends_with, has_prefix, has_suffix, less, same, slice, starts_with, text_less,
    text_less_irreflexive, text_order, then_text,
};
use config::{TestPolicyConfig, TestPolicyView};
use model::{
    after, AnalysisGap, AnalysisGapView, FindingView, OperationalError, OperationalErrorView,
    ReportStatus, TestCase, TestCaseView, ToolInfo, ToolInfoView, ValidationReport,
    ValidationReportView, ValidationSummary, REPORT_SCHEMA_VERSION,
};
use parse::parsed;
use rules::{
    accepted_findings, evaluate, intent_gaps, reported_findings, ByGap, ByPlace, ByTest,
};
use rust::{analyze_source, tests_in};

verus! {

broadcast use {vstd::std_specs::vec::group_vec_axioms, crate::seqs::group_views};

/// What a validation is asked to do.
pub struct ValidateTestsArgs {
    /// Repository root used for discovery, configuration, and report paths.
    pub root: String,
    /// The Rust source files to analyze; all that the policy names where there are none.
    pub file: Vec<String>,
    /// The policy file to use in place of the repository's own.
    pub config: Option<String>,
    /// Where to write the versioned native JSON report.
    pub json: Option<String>,
    /// Where to write a SARIF 2.1.0 report.
    pub sarif: Option<String>,
    /// After how many milliseconds an analysis is incomplete.
    pub timeout: Option<u64>,
}

#[derive(Debug, Clone, Copy, PartialEq, Eq, Structural)]
pub enum ReportFormat {
    Json,
    Sarif,
}

impl ReportFormat {
    pub open spec fn word(self) -> Seq<char> {
        match self {
            ReportFormat::Json => "JSON"@,
            ReportFormat::Sarif => "SARIF"@,
        }
    }

    pub fn name(self) -> (r: &'static str)
        ensures
            r@ == self.word(),
    {
        match self {
            ReportFormat::Json => "JSON",
            ReportFormat::Sarif => "SARIF",
        }
    }
}

/// A report to write, and where.
#[derive(Debug, Clone, PartialEq, Eq)]
pub struct ReportTarget {
    pub format: ReportFormat,
    pub path: String,
}

impl View for ReportTarget {
    type V = (ReportFormat, Seq<char>);

    open spec fn view(&self) -> (ReportFormat, Seq<char>) {
        (self.format, self.path@)
    }
}

/// Where to write the reports that are asked for.
#[derive(Debug, Clone, PartialEq, Eq)]
pub struct ReportPaths {
    pub json: Option<String>,
    pub sarif: Option<String>,
}

impl ReportPaths {
    /// The reports to write: the native one first.
    pub open spec fn wanted(self) -> Seq<(ReportFormat, Seq<char>)> {
        (match self.json {
            Some(path) => seq![(ReportFormat::Json, path@)],
            None => seq![],
        }) + (match self.sarif {
            Some(path) => seq![(ReportFormat::Sarif, path@)],
            None => seq![],
        })
    }

    pub fn targets(&self) -> (r: Vec<ReportTarget>)
        ensures
            views(r@) == self.wanted(),
    {
        let mut targets: Vec<ReportTarget> = Vec::new();
        if let Some(path) = &self.json {
            targets.push(ReportTarget { format: ReportFormat::Json, path: path.clone() });
        }
        if let Some(path) = &self.sarif {
            targets.push(ReportTarget { format: ReportFormat::Sarif, path: path.clone() });
        }
        assert(views(targets@) =~= self.wanted());
        targets
    }
}

/// A component of a path.
pub enum PathPart {
    Current,
    Parent,
    /// A root or a prefix, which nothing goes above.
    Root(String),
    Name(String),
}

pub enum PathPartView {
    Current,
    Parent,
    Root(Seq<char>),
    Name(Seq<char>),
}

impl View for PathPart {
    type V = PathPartView;

    open spec fn view(&self) -> PathPartView {
        match self {
            PathPart::Current => PathPartView::Current,
            PathPart::Parent => PathPartView::Parent,
            PathPart::Root(text) => PathPartView::Root(text@),
            PathPart::Name(text) => PathPartView::Name(text@),
        }
    }
}

/// A path without `.` and `..`: each `..` takes away the name before it, if there is
/// one.
pub open spec fn lexically_normal(parts: Seq<PathPartView>) -> Seq<PathPartView>
    decreases parts.len(),
{
    if parts.len() == 0 {
        seq![]
    } else {
        let rest = lexically_normal(parts.drop_last());
        match parts.last() {
            PathPartView::Current => rest,
            PathPartView::Parent => if rest.len() > 0 && rest.last() is Name {
                rest.drop_last()
            } else {
                rest
            },
            _ => rest.push(parts.last()),
        }
    }
}

pub fn lexical_normalize(parts: Vec<PathPart>) -> (r: Vec<PathPart>)
    ensures
        views(r@) == lexically_normal(views(parts@)),
{
    let ghost all = views(parts@);
    let mut out: Vec<PathPart> = Vec::new();
    for part in it: parts
        invariant
            all == views(it.seq()),
            views(out@) == lexically_normal(all.take(it.index() as int)),
    {
        proof {
            take_step(all, it.index() as int);
        }
        let ghost before = views(out@);
        match part {
            PathPart::Current => {},
            PathPart::Parent => {
                let named = if out.len() > 0 {
                    match &out[out.len() - 1] {
                        PathPart::Name(_) => true,
                        _ => false,
                    }
                } else {
                    false
                };
                if named {
                    let _ = out.pop();
                    assert(views(out@) =~= before.drop_last());
                }
            },
            other => {
                out.push(other);
            },
        }
    }
    proof {
        take_all(all);
    }
    out
}

/// A path without `.` and `..` has none left.
pub proof fn lexically_normal_has_no_dots(parts: Seq<PathPartView>, i: int)
    requires
        0 <= i < lexically_normal(parts).len(),
    ensures
        lexically_normal(parts)[i] is Root || lexically_normal(parts)[i] is Name,
    decreases parts.len(),
{
    if parts.len() > 0 {
        let rest = lexically_normal(parts.drop_last());
        if i < rest.len() {
            lexically_normal_has_no_dots(parts.drop_last(), i);
        }
    }
}

/// A path to write to: the components of the directory that exists, and of what is
/// missing below it.
pub struct ReportPathParts {
    pub existing: Vec<String>,
    pub missing: Vec<String>,
}

impl ReportPathParts {
    pub open spec fn whole(self) -> Seq<Seq<char>> {
        views(self.existing@) + views(self.missing@)
    }
}

pub open spec fn ascii_lower(c: char) -> char {
    if 'A' <= c <= 'Z' {
        (c as int + 32) as char
    } else {
        c
    }
}

/// Whether two texts are equal when ASCII letters of either case are.
pub open spec fn same_ignoring_case(a: Seq<char>, b: Seq<char>) -> bool {
    a.len() == b.len() && forall|i: int|
        0 <= i < a.len() ==> ascii_lower(#[trigger] a[i]) == ascii_lower(b[i])
}

fn lower_char(c: char) -> (r: char)
    ensures
        r == ascii_lower(c),
{
    if 'A' <= c && c <= 'Z' {
        ((c as u8) + 32) as char
    } else {
        c
    }
}

fn eq_ignore_case(a: &str, b: &str) -> (r: bool)
    ensures
        r == same_ignoring_case(a@, b@),
{
    let x = chars(a);
    let y = chars(b);
    if x.len() != y.len() {
        return false;
    }
    let mut i: usize = 0;
    while i < x.len()
        invariant
            x@ == a@,
            y@ == b@,
            x@.len() == y@.len(),
            i <= x@.len(),
            forall|j: int| 0 <= j < i ==> ascii_lower(#[trigger] a@[j]) == ascii_lower(b@[j]),
        decreases x@.len() - i,
    {
        if lower_char(x[i]) != lower_char(y[i]) {
            assert(ascii_lower(a@[i as int]) != ascii_lower(b@[i as int]));
            return false;
        }
        i += 1;
    }
    true
}

/// Whether two paths lead to the same file: they are equal or, where the directory that
/// both exist in takes no notice of case, equal but for the case of what is missing.
pub open spec fn collide(
    left: ReportPathParts,
    right: ReportPathParts,
    case_insensitive: bool,
) -> bool {
    let a = views(left.missing@);
    let b = views(right.missing@);
    left.whole() == right.whole() || (views(left.existing@) == views(right.existing@)
        && case_insensitive && a.len() == b.len() && forall|i: int|
        0 <= i < a.len() ==> same_ignoring_case(#[trigger] a[i], b[i]))
}

fn same_texts(a: &Vec<String>, b: &Vec<String>) -> (r: bool)
    ensures
        r == (views(a@) == views(b@)),
{
    if a.len() != b.len() {
        assert(views(a@).len() != views(b@).len());
        return false;
    }
    let mut i: usize = 0;
    while i < a.len()
        invariant
            a@.len() == b@.len(),
            i <= a@.len(),
            forall|j: int| 0 <= j < i ==> #[trigger] views(a@)[j] == views(b@)[j],
        decreases a@.len() - i,
    {
        if !same(a[i].as_str(), b[i].as_str()) {
            assert(views(a@)[i as int] != views(b@)[i as int]);
            return false;
        }
        i += 1;
    }
    assert(views(a@) =~= views(b@));
    true
}

fn same_texts_ignoring_case(a: &Vec<String>, b: &Vec<String>) -> (r: bool)
    ensures
        r == (a@.len() == b@.len() && forall|i: int|
            0 <= i < views(a@).len() ==> same_ignoring_case(
                #[trigger] views(a@)[i],
                views(b@)[i],
            )),
{
    if a.len() != b.len() {
        return false;
    }
    let mut i: usize = 0;
    while i < a.len()
        invariant
            a@.len() == b@.len(),
            i <= a@.len(),
            forall|j: int|
                0 <= j < i ==> same_ignoring_case(#[trigger] views(a@)[j], views(b@)[j]),
        decreases a@.len() - i,
    {
        if !eq_ignore_case(a[i].as_str(), b[i].as_str()) {
            assert(!same_ignoring_case(views(a@)[i as int], views(b@)[i as int]));
            return false;
        }
        i += 1;
    }
    true
}

pub fn report_paths_collide(
    left: &ReportPathParts,
    right: &ReportPathParts,
    case_insensitive: bool,
) -> (r: bool)
    ensures
        r == collide(*left, *right, case_insensitive),
{
    let mut a = copy_all(&left.existing);
    let mut more_a = copy_all(&left.missing);
    a.append(&mut more_a);
    let mut b = copy_all(&right.existing);
    let mut more_b = copy_all(&right.missing);
    b.append(&mut more_b);
    assert(views(a@) == left.whole());
    assert(views(b@) == right.whole());
    same_texts(&a, &b) || (same_texts(&left.existing, &right.existing) && case_insensitive
        && same_texts_ignoring_case(&left.missing, &right.missing))
}

pub open spec fn ascii_letter(c: char) -> bool {
    'a' <= c <= 'z' || 'A' <= c <= 'Z'
}

/// The position of the first ASCII letter from `i` on.
pub open spec fn first_letter(name: Seq<char>, i: int) -> Option<int>
    decreases name.len() - i,
{
    if i < 0 || i >= name.len() {
        None
    } else if ascii_letter(name[i]) {
        Some(i)
    } else {
        first_letter(name, i + 1)
    }
}

pub open spec fn other_case(c: char) -> char {
    if 'a' <= c <= 'z' {
        (c as int - 32) as char
    } else {
        ascii_lower(c)
    }
}

/// The name with its first ASCII letter in the other case.
pub open spec fn alternate_of(name: Seq<char>) -> Option<Seq<char>> {
    match first_letter(name, 0) {
        Some(i) => Some(name.update(i, other_case(name[i]))),
        None => None,
    }
}

/// The name by which to ask whether a directory takes notice of case.
pub fn alternate_name(name: &str) -> (r: Option<String>)
    ensures
        option_view(r) == alternate_of(name@),
{
    let mut all = chars(name);
    let mut i: usize = 0;
    while i < all.len()
        invariant
            all@ == name@,
            i <= all@.len(),
            first_letter(name@, 0) == first_letter(name@, i as int),
        decreases all@.len() - i,
    {
        let c: char = all[i];
        if ('a' <= c && c <= 'z') || ('A' <= c && c <= 'Z') {
            let replacement = swap_case(c);
            all.set(i, replacement);
            return Some(crate::text::text_of(all.as_slice()));
        }
        i += 1;
    }
    None
}

fn swap_case(c: char) -> (r: char)
    requires
        ascii_letter(c),
    ensures
        r == other_case(c),
{
    if 'a' <= c && c <= 'z' {
        ((c as u8) - 32) as char
    } else {
        lower_char(c)
    }
}

/// Whether discovery goes into a directory, or looks at a file, at this depth.
pub open spec fn discovered(depth: usize, name: Seq<char>) -> bool {
    depth == 0 || (name != "target"@ && !has_prefix(name, "."@))
}

pub fn enters(depth: usize, name: &str) -> (r: bool)
    ensures
        r == discovered(depth, name@),
{
    depth == 0 || (!same(name, "target") && !starts_with(name, "."))
}

/// Orders paths inside the repository component by component.
pub open spec fn path_before(a: Seq<Seq<char>>, b: Seq<Seq<char>>) -> bool
    decreases a.len(),
{
    if b.len() == 0 {
        false
    } else if a.len() == 0 {
        true
    } else if a[0] != b[0] {
        text_less(a[0], b[0])
    } else {
        path_before(a.skip(1), b.skip(1))
    }
}

/// A file inside the repository, by the components of its path.
pub struct FilePath {
    pub components: Vec<String>,
}

impl View for FilePath {
    type V = Seq<Seq<char>>;

    open spec fn view(&self) -> Seq<Seq<char>> {
        views(self.components@)
    }
}

pub struct PathOrder;

impl Order<FilePath> for PathOrder {
    open spec fn before(a: Seq<Seq<char>>, b: Seq<Seq<char>>) -> bool {
        path_before(a, b)
    }

    fn is_before(a: &FilePath, b: &FilePath) -> (r: bool) {
        let ghost x = a@;
        let ghost y = b@;
        let mut i: usize = 0;
        assert(x.skip(0) =~= x && y.skip(0) =~= y);
        loop
            invariant
                x == views(a.components@),
                y == views(b.components@),
                i <= x.len(),
                i <= y.len(),
                path_before(x, y) == path_before(x.skip(i as int), y.skip(i as int)),
            decreases x.len() - i,
        {
            if i == b.components.len() {
                return false;
            }
            if i == a.components.len() {
                return true;
            }
            proof {
                assert(x.skip(i as int)[0] == x[i as int]);
                assert(y.skip(i as int)[0] == y[i as int]);
                assert(x.skip(i as int).skip(1) =~= x.skip(i + 1));
                assert(y.skip(i as int).skip(1) =~= y.skip(i + 1));
            }
            if !same(a.components[i].as_str(), b.components[i].as_str()) {
                return less(a.components[i].as_str(), b.components[i].as_str());
            }
            i += 1;
        }
    }

    proof fn strict_weak(a: Seq<Seq<char>>, b: Seq<Seq<char>>, c: Seq<Seq<char>>)
        decreases a.len() + b.len() + c.len(),
    {
        if a.len() > 0 {
            path_irreflexive(a);
        } else {
            assert(!path_before(a, a));
        }
        path_laws(a, b, c);
    }
}

proof fn path_irreflexive(a: Seq<Seq<char>>)
    ensures
        !path_before(a, a),
    decreases a.len(),
{
    if a.len() > 0 {
        path_irreflexive(a.skip(1));
    }
}

proof fn path_laws(a: Seq<Seq<char>>, b: Seq<Seq<char>>, c: Seq<Seq<char>>)
    ensures
        path_before(a, b) ==> !path_before(b, a),
        !path_before(a, b) && !path_before(b, c) ==> !path_before(a, c),
    decreases a.len() + b.len() + c.len(),
{
    if a.len() > 0 && b.len() > 0 {
        text_order(a[0], b[0], a[0]);
        text_order(b[0], a[0], b[0]);
        if c.len() > 0 {
            text_order(a[0], b[0], c[0]);
            text_order(b[0], a[0], c[0]);
            text_order(b[0], c[0], a[0]);
            path_laws(a.skip(1), b.skip(1), c.skip(1));
        } else {
            path_laws(a.skip(1), b.skip(1), c);
        }
    }
}

/// A sequence without the elements that equal the one before them.
pub open spec fn without_repeats(s: Seq<Seq<Seq<char>>>) -> Seq<Seq<Seq<char>>>
    decreases s.len(),
{
    if s.len() == 0 {
        s
    } else if s.len() > 1 && s[s.len() - 2] == s.last() {
        without_repeats(s.drop_last())
    } else {
        without_repeats(s.drop_last()).push(s.last())
    }
}

/// The files to analyze: in the order of their paths, each once.
pub fn order_files(files: Vec<FilePath>) -> (r: Vec<FilePath>)
    ensures
        views(r@) == without_repeats(sorted::<FilePath, PathOrder>(views(files@))),
{
    let ordered = sort::<FilePath, PathOrder>(files);
    let ghost all = views(ordered@);
    let mut out: Vec<FilePath> = Vec::new();
    let mut i: usize = 0;
    assert(all.take(0) =~= seq![]);
    while i < ordered.len()
        invariant
            all == views(ordered@),
            i <= ordered@.len(),
            views(out@) == without_repeats(all.take(i as int)),
        decreases ordered@.len() - i,
    {
        proof {
            take_step(all, i as int);
            if i > 0 {
                assert(all.take(i + 1)[i - 1] == all[i - 1]);
            }
        }
        if i == 0 || !same_texts(&ordered[i - 1].components, &ordered[i].components) {
            out.push(FilePath { components: copy_all(&ordered[i].components) });
        }
        i += 1;
    }
    proof {
        take_all(all);
    }
    out
}

pub open spec fn is_digit(c: char) -> bool {
    '0' <= c <= '9'
}

pub open spec fn all_digits(s: Seq<char>) -> bool {
    forall|i: int| 0 <= i < s.len() ==> is_digit(#[trigger] s[i])
}

/// The number that decimal digits stand for.
pub open spec fn digits_value(s: Seq<char>) -> nat
    decreases s.len(),
{
    if s.len() == 0 {
        0
    } else {
        10 * digits_value(s.drop_last()) + (s.last() as int - 48) as nat
    }
}

/// The digits of a number that may be written with a plus sign.
pub open spec fn unsigned_digits(s: Seq<char>) -> Seq<char> {
    if s.len() > 0 && s[0] == '+' {
        s.skip(1)
    } else {
        s
    }
}

/// The number that a text is.
pub open spec fn number_of(s: Seq<char>) -> Option<u64> {
    let digits = unsigned_digits(s);
    if digits.len() > 0 && all_digits(digits) && digits_value(digits) <= u64::MAX {
        Some(digits_value(digits) as u64)
    } else {
        None
    }
}

proof fn longer_digits_are_no_less(s: Seq<char>, n: int)
    requires
        0 <= n <= s.len(),
        all_digits(s),
    ensures
        digits_value(s.take(n)) <= digits_value(s),
    decreases s.len(),
{
    if n == s.len() {
        assert(s.take(n) =~= s);
    } else {
        let rest = s.drop_last();
        assert forall|i: int| 0 <= i < rest.len() implies is_digit(#[trigger] rest[i]) by {
            assert(is_digit(s[i]));
        }
        longer_digits_are_no_less(rest, n);
        assert(rest.take(n) =~= s.take(n));
        assert(is_digit(s[s.len() - 1]));
    }
}

fn digit_value(c: char) -> (r: u64)
    requires
        is_digit(c),
    ensures
        r == c as int - 48,
{
    (c as u32 - 48) as u64
}

/// The number that a text is.
pub fn parse_number(s: &str) -> (r: Option<u64>)
    ensures
        r == number_of(s@),
{
    let all = chars(s);
    let start: usize = if all.len() > 0 && all[0] == '+' {
        1
    } else {
        0
    };
    let ghost digits = unsigned_digits(s@);
    assert(digits =~= s@.skip(start as int));
    if start == all.len() {
        return None;
    }
    let mut value: u64 = 0;
    let mut i: usize = start;
    while i < all.len()
        invariant
            all@ == s@,
            start <= i <= all@.len(),
            start < all@.len(),
            digits == s@.skip(start as int),
            digits == unsigned_digits(s@),
            forall|j: int| 0 <= j < i - start ==> is_digit(#[trigger] digits[j]),
            value == digits_value(digits.take(i - start)),
        decreases all@.len() - i,
    {
        let c: char = all[i];
        assert(digits[i - start] == c);
        if !('0' <= c && c <= '9') {
            assert(!is_digit(digits[i - start]));
            return None;
        }
        let next: u64 = digit_value(c);
        proof {
            take_step(digits, i - start);
        }
        let grown = match value.checked_mul(10) {
            Some(grown) => grown,
            None => {
                proof {
                    if all_digits(digits) {
                        longer_digits_are_no_less(digits, i + 1 - start);
                    }
                }
                return None;
            },
        };
        value = match grown.checked_add(next) {
            Some(sum) => sum,
            None => {
                proof {
                    if all_digits(digits) {
                        longer_digits_are_no_less(digits, i + 1 - start);
                    }
                }
                return None;
            },
        };
        i += 1;
    }
    proof {
        take_all(digits);
    }
    Some(value)
}

/// The number part of a duration and the milliseconds of its unit.
pub open spec fn duration_parts(value: Seq<char>) -> (Seq<char>, u64) {
    if has_suffix(value, "ms"@) {
        (value.take(value.len() - 2), 1)
    } else if has_suffix(value, "s"@) {
        (value.take(value.len() - 1), 1_000)
    } else if has_suffix(value, "m"@) {
        (value.take(value.len() - 1), 60_000)
    } else {
        (value, 1_000)
    }
}

/// The milliseconds that a duration stands for, or why it stands for none.
pub open spec fn duration_of(value: Seq<char>) -> Result<u64, Seq<char>> {
    let (digits, unit) = duration_parts(value);
    match number_of(digits) {
        None => Err(
            "invalid duration `"@ + value + "`; use an integer with ms, s, or m"@,
        ),
        Some(amount) => if amount * unit <= u64::MAX {
            Ok((amount * unit) as u64)
        } else {
            Err("duration `"@ + value + "` is too large"@)
        },
    }
}

/// Reads a duration in milliseconds: a number with `ms`, `s` or `m`, in seconds where it
/// has no unit.
pub fn parse_duration(value: &str) -> (r: Result<u64, String>)
    ensures
        match r {
            Ok(milliseconds) => duration_of(value@) == Ok::<u64, Seq<char>>(milliseconds),
            Err(message) => duration_of(value@) == Err::<u64, Seq<char>>(message@),
        },
{
    proof {
        reveal_strlit("ms");
        reveal_strlit("s");
        reveal_strlit("m");
    }
    let all = chars(value);
    let size: usize = all.len();
    let (cut, unit): (usize, u64) = if ends_with(value, "ms") {
        (2, 1)
    } else if ends_with(value, "s") {
        (1, 1_000)
    } else if ends_with(value, "m") {
        (1, 60_000)
    } else {
        (0, 1_000)
    };
    let number = slice(all.as_slice(), 0, size - cut);
    assert(number@ =~= duration_parts(value@).0);
    match parse_number(number.as_str()) {
        None => {
            let mut message = "invalid duration `".to_owned();
            message.append(value);
            message.append("`; use an integer with ms, s, or m");
            Err(message)
        },
        Some(amount) => match amount.checked_mul(unit) {
            Some(milliseconds) => Ok(milliseconds),
            None => {
                let mut message = "duration `".to_owned();
                message.append(value);
                message.append("` is too large");
                Err(message)
            },
        },
    }
}

/// A duration of some milliseconds as people read it.
pub uninterp spec fn shown_duration(milliseconds: u64) -> Seq<char>;

/// The `Debug` text of `std::time::Duration::from_millis`: it depends on the number of
/// milliseconds alone.
#[verifier::external_body]
fn show_duration(milliseconds: u64) -> (r: String)
    ensures
        r@ == shown_duration(milliseconds),
{
    format!("{:?}", std::time::Duration::from_millis(milliseconds))
}

/// Whether the time that an analysis may take is over.
pub open spec fn expired(elapsed: u64, timeout: Option<u64>) -> bool {
    match timeout {
        Some(limit) => elapsed >= limit,
        None => false,
    }
}

/// Whether the time that an analysis may take, in milliseconds, is over.
pub fn deadline_expired(elapsed: u64, timeout: Option<u64>) -> (r: bool)
    ensures
        r == expired(elapsed, timeout),
{
    match timeout {
        Some(limit) => elapsed >= limit,
        None => false,
    }
}

pub open spec fn error_of(code: Seq<char>, message: Seq<char>) -> OperationalErrorView {
    OperationalErrorView { code, message, location: None }
}

fn operational_error(code: &str, message: &str) -> (r: OperationalError)
    ensures
        r@ == error_of(code@, message@),
{
    OperationalError { code: code.to_owned(), message: message.to_owned(), location: None }
}

pub open spec fn timeout_error_of(timeout: Option<u64>) -> OperationalErrorView {
    error_of(
        "analysis.timeout"@,
        "test analysis exceeded its explicit "@ + shown_duration(
            match timeout {
                Some(limit) => limit,
                None => 0,
            },
        ) + " deadline"@,
    )
}

pub fn timeout_error(timeout: Option<u64>) -> (r: OperationalError)
    ensures
        r@ == timeout_error_of(timeout),
{
    let limit: u64 = match timeout {
        Some(limit) => limit,
        None => 0,
    };
    let mut message = "test analysis exceeded its explicit ".to_owned();
    message.append(show_duration(limit).as_str());
    message.append(" deadline");
    operational_error("analysis.timeout", message.as_str())
}

pub open spec fn has_timeout(errors: Seq<OperationalErrorView>) -> bool {
    exists|i: int|
        0 <= i < errors.len() && (#[trigger] errors[i]).code == "analysis.timeout"@
}

fn holds_timeout(errors: &Vec<OperationalError>) -> (r: bool)
    ensures
        r == has_timeout(views(errors@)),
{
    let mut i: usize = 0;
    while i < errors.len()
        invariant
            i <= errors@.len(),
            forall|j: int|
                0 <= j < i ==> (#[trigger] views(errors@)[j]).code != "analysis.timeout"@,
        decreases errors@.len() - i,
    {
        if same(errors[i].code.as_str(), "analysis.timeout") {
            assert(views(errors@)[i as int].code == "analysis.timeout"@);
            return true;
        }
        i += 1;
    }
    false
}

/// The errors with that of a timeout, where it is not among them yet.
pub open spec fn with_timeout(
    errors: Seq<OperationalErrorView>,
    timeout: Option<u64>,
) -> Seq<OperationalErrorView> {
    if has_timeout(errors) {
        errors
    } else {
        errors.push(timeout_error_of(timeout))
    }
}

/// What a validation has read and found so far.
pub struct Session {
    pub tests: Vec<TestCase>,
    pub processed_files: usize,
    pub errors: Vec<OperationalError>,
}

#[verifier::ext_equal]
pub struct SessionView {
    pub tests: Seq<TestCaseView>,
    pub processed_files: usize,
    pub errors: Seq<OperationalErrorView>,
}

impl View for Session {
    type V = SessionView;

    open spec fn view(&self) -> SessionView {
        SessionView {
            tests: views(self.tests@),
            processed_files: self.processed_files,
            errors: views(self.errors@),
        }
    }
}

/// The tests of a source file.
pub open spec fn tests_of_source(
    path: Seq<char>,
    source: Seq<char>,
    policy: TestPolicyView,
) -> Seq<TestCaseView> {
    tests_in(
        path,
        parsed(source)->Ok_0.children,
        seq![],
        Map::empty(),
        crate::text::lines_of(source),
        policy,
    )
}

impl SessionView {
    /// After a source file that could be read.
    pub open spec fn after_source(
        self,
        path: Seq<char>,
        source: Seq<char>,
        policy: TestPolicyView,
    ) -> SessionView {
        match parsed(source) {
            Ok(_) => SessionView {
                tests: self.tests + tests_of_source(path, source, policy),
                processed_files: after(self.processed_files as int),
                ..self
            },
            Err(message) => SessionView {
                errors: self.errors.push(
                    error_of(
                        "input.parse-failed"@,
                        "failed to parse "@ + path + ": "@ + message,
                    ),
                ),
                ..self
            },
        }
    }

    /// Once the time is over.
    pub open spec fn after_timeout(self, timeout: Option<u64>) -> SessionView {
        SessionView { errors: self.errors.push(timeout_error_of(timeout)), ..self }
    }

    pub open spec fn after_read_failure(self, path: Seq<char>, error: Seq<char>) -> SessionView {
        SessionView {
            errors: self.errors.push(
                error_of("input.read-failed"@, "failed to read "@ + path + ": "@ + error),
            ),
            ..self
        }
    }
}

impl Session {
    pub fn new() -> (r: Session)
        ensures
            r@ == (SessionView { tests: seq![], processed_files: 0, errors: seq![] }),
    {
        let r = Session { tests: Vec::new(), processed_files: 0, errors: Vec::new() };
        assert(r@ =~= (SessionView { tests: seq![], processed_files: 0, errors: seq![] }));
        r
    }

    /// Analyzes a source file; tells whether to go on with the next one.
    pub fn add_source(&mut self, path: &str, source: &str, policy: &TestPolicyConfig) -> (r: bool)
        ensures
            final(self)@ == old(self)@.after_source(path@, source@, policy@),
            r == parsed(source@) is Ok,
    {
        match analyze_source(path, source, policy) {
            Ok(mut discovered) => {
                self.tests.append(&mut discovered);
                self.processed_files = self.processed_files.saturating_add(1);
                true
            },
            Err(error) => {
                let mut message = "failed to parse ".to_owned();
                message.append(path);
                message.append(": ");
                message.append(error.as_str());
                self.errors.push(operational_error("input.parse-failed", message.as_str()));
                false
            },
        }
    }

    /// Notes that a source file could not be read.
    pub fn read_failed(&mut self, path: &str, error: &str)
        ensures
            final(self)@ == old(self)@.after_read_failure(path@, error@),
    {
        let mut message = "failed to read ".to_owned();
        message.append(path);
        message.append(": ");
        message.append(error);
        self.errors.push(operational_error("input.read-failed", message.as_str()));
    }

    /// Tells whether to go on; notes that the time is over where it is.
    pub fn goes_on(&mut self, expired: bool, timeout: Option<u64>) -> (r: bool)
        ensures
            r == !expired,
            final(self)@ == (if expired {
                old(self)@.after_timeout(timeout)
            } else {
                old(self)@
            }),
    {
        if expired {
            self.errors.push(timeout_error(timeout));
        }
        !expired
    }
}

/// Orders gaps by path, test, code and line.
pub struct ByGapLine;

impl Order<AnalysisGap> for ByGapLine {
    open spec fn before(a: AnalysisGapView, b: AnalysisGapView) -> bool {
        then_text(
            a.location.path,
            b.location.path,
            then_text(
                a.test.qualified_name,
                b.test.qualified_name,
                then_text(
                    a.code,
                    b.code,
                    a.location.span.start.line < b.location.span.start.line,
                ),
            ),
        )
    }

    fn is_before(a: &AnalysisGap, b: &AnalysisGap) -> (r: bool) {
        if !same(a.location.path.as_str(), b.location.path.as_str()) {
            return less(a.location.path.as_str(), b.location.path.as_str());
        }
        proof {
            text_less_irreflexive(a.location.path@);
            text_less_irreflexive(a.test.qualified_name@);
            text_less_irreflexive(a.code@);
        }
        if !same(a.test.qualified_name.as_str(), b.test.qualified_name.as_str()) {
            return less(a.test.qualified_name.as_str(), b.test.qualified_name.as_str());
        }
        if !same(a.code.as_str(), b.code.as_str()) {
            return less(a.code.as_str(), b.code.as_str());
        }
        a.location.span.start.line < b.location.span.start.line
    }

    proof fn strict_weak(a: AnalysisGapView, b: AnalysisGapView, c: AnalysisGapView) {
        text_order(a.location.path, b.location.path, c.location.path);
        text_order(b.location.path, a.location.path, c.location.path);
        text_order(b.location.path, c.location.path, a.location.path);
        text_order(a.test.qualified_name, b.test.qualified_name, c.test.qualified_name);
        text_order(b.test.qualified_name, a.test.qualified_name, c.test.qualified_name);
        text_order(b.test.qualified_name, c.test.qualified_name, a.test.qualified_name);
        text_order(a.code, b.code, c.code);
        text_order(b.code, a.code, c.code);
        text_order(b.code, c.code, a.code);
    }
}

/// A test by the path of its file and its qualified name.
pub type TestKey = (Seq<char>, Seq<char>);

pub open spec fn finding_keys(findings: Seq<FindingView>) -> Seq<TestKey> {
    Seq::new(
        findings.len(),
        |i: int| (findings[i].primary.path, findings[i].test.qualified_name),
    )
}

pub open spec fn gap_keys(gaps: Seq<AnalysisGapView>) -> Seq<TestKey> {
    Seq::new(gaps.len(), |i: int| (gaps[i].location.path, gaps[i].test.qualified_name))
}

/// The keys of some tests, each once.
struct TestKeys {
    items: Vec<(String, String)>,
}

spec fn key_views(items: Seq<(String, String)>) -> Seq<TestKey> {
    Seq::new(items.len(), |i: int| (items[i].0@, items[i].1@))
}

impl TestKeys {
    fn add_key(&mut self, path: &str, name: &str)
        requires
            key_views(old(self).items@).no_duplicates(),
        ensures
            key_views(final(self).items@).no_duplicates(),
            key_views(final(self).items@).to_set() == key_views(old(self).items@).to_set().insert(
                (path@, name@),
            ),
    {
        let ghost before = key_views(self.items@);
        let mut i: usize = 0;
        while i < self.items.len()
            invariant
                *self == *old(self),
                before == key_views(self.items@),
                before.no_duplicates(),
                i <= self.items@.len(),
                forall|j: int| 0 <= j < i ==> #[trigger] before[j] != (path@, name@),
            decreases self.items@.len() - i,
        {
            if same(self.items[i].0.as_str(), path) && same(self.items[i].1.as_str(), name) {
                assert(before[i as int] == (path@, name@));
                assert(before.to_set().contains((path@, name@)));
                assert(before.to_set() =~= before.to_set().insert((path@, name@)));
                return ;
            }
            i += 1;
        }
        self.items.push((path.to_owned(), name.to_owned()));
        proof {
            assert(key_views(self.items@) =~= before.push((path@, name@)));
            crate::names::set_of_push(before, (path@, name@));
        }
    }
}

fn count_finding_tests(findings: &Vec<model::Finding>) -> (r: usize)
    ensures
        r == finding_keys(views(findings@)).to_set().len(),
{
    let ghost all = finding_keys(views(findings@));
    let mut keys = TestKeys { items: Vec::new() };
    let mut i: usize = 0;
    assert(key_views(keys.items@).to_set() =~= all.take(0).to_set());
    while i < findings.len()
        invariant
            all == finding_keys(views(findings@)),
            i <= findings@.len(),
            key_views(keys.items@).no_duplicates(),
            key_views(keys.items@).to_set() == all.take(i as int).to_set(),
        decreases findings@.len() - i,
    {
        proof {
            take_step(all, i as int);
            crate::names::set_of_push(all.take(i as int), all[i as int]);
        }
        keys.add_key(
            findings[i].primary.path.as_str(),
            findings[i].test.qualified_name.as_str(),
        );
        i += 1;
    }
    proof {
        take_all(all);
        key_views(keys.items@).unique_seq_to_set();
    }
    keys.items.len()
}

fn count_gap_tests(gaps: &Vec<AnalysisGap>) -> (r: usize)
    ensures
        r == gap_keys(views(gaps@)).to_set().len(),
{
    let ghost all = gap_keys(views(gaps@));
    let mut keys = TestKeys { items: Vec::new() };
    let mut i: usize = 0;
    assert(key_views(keys.items@).to_set() =~= all.take(0).to_set());
    while i < gaps.len()
        invariant
            all == gap_keys(views(gaps@)),
            i <= gaps@.len(),
            key_views(keys.items@).no_duplicates(),
            key_views(keys.items@).to_set() == all.take(i as int).to_set(),
        decreases gaps@.len() - i,
    {
        proof {
            take_step(all, i as int);
            crate::names::set_of_push(all.take(i as int), all[i as int]);
        }
        keys.add_key(gaps[i].location.path.as_str(), gaps[i].test.qualified_name.as_str());
        i += 1;
    }
    proof {
        take_all(all);
        key_views(keys.items@).unique_seq_to_set();
    }
    keys.items.len()
}

/// The gaps of all tests: those of the analysis and those about their intent.
pub open spec fn all_gaps(tests: Seq<TestCaseView>) -> Seq<AnalysisGapView> {
    sorted::<AnalysisGap, ByGapLine>(
        flat(tests, |t: TestCaseView| t.gaps) + sorted::<AnalysisGap, ByGap>(intent_gaps(tests)),
    )
}

pub open spec fn difference(a: nat, b: nat) -> nat {
    if a >= b {
        (a - b) as nat
    } else {
        0
    }
}

/// The errors of a validation that has read all it could.
pub open spec fn closing_errors(
    tests: Seq<TestCaseView>,
    errors: Seq<OperationalErrorView>,
    expired: bool,
    timeout: Option<u64>,
) -> Seq<OperationalErrorView> {
    let found = if tests.len() == 0 && errors.len() == 0 {
        errors.push(
            error_of(
                "input.no-tests"@,
                "no Rust tests were discovered in the selected files"@,
            ),
        )
    } else {
        errors
    };
    if expired {
        with_timeout(found, timeout)
    } else {
        found
    }
}

/// Whether a report is that of a session: what is found in its tests, in order, and how
/// much of it there is.
pub open spec fn reports(
    report: ValidationReportView,
    session: SessionView,
    policy: TestPolicyView,
    expired: bool,
    timeout: Option<u64>,
    version: Seq<char>,
) -> bool {
    let errors = closing_errors(session.tests, session.errors, expired, timeout);
    &&& report.schema_version == REPORT_SCHEMA_VERSION@
    &&& report.tool == (ToolInfoView { name: "cntryl-tools"@, version })
    &&& report.root == "."@
    &&& report.errors == errors
    &&& report.status == (if errors.len() == 0 {
        ReportStatus::Complete
    } else {
        ReportStatus::Incomplete
    })
    &&& report.findings == sorted::<model::Finding, ByPlace>(
        reported_findings(session.tests, policy),
    )
    &&& report.exemptions == sorted::<model::AppliedExemption, ByTest>(
        accepted_findings(session.tests, policy),
    )
    &&& report.analysis_gaps == all_gaps(session.tests)
    &&& report.summary.total_files == session.processed_files
    &&& report.summary.total_tests == session.tests.len()
    &&& report.summary.partially_analyzed_tests == gap_keys(report.analysis_gaps).to_set().len()
    &&& report.summary.fully_analyzed_tests == difference(
        session.tests.len(),
        gap_keys(report.analysis_gaps).to_set().len(),
    )
    &&& report.summary.tests_with_findings == finding_keys(report.findings).to_set().len()
    &&& report.summary.findings == report.findings.len()
    &&& report.summary.applied_exemptions == report.exemptions.len()
}

fn gather_gaps(tests: &Vec<TestCase>) -> (r: Vec<AnalysisGap>)
    ensures
        views(r@) == flat(views(tests@), |t: TestCaseView| t.gaps),
{
    let ghost f = |t: TestCaseView| t.gaps;
    let ghost all = views(tests@);
    let mut out: Vec<AnalysisGap> = Vec::new();
    let mut i: usize = 0;
    while i < tests.len()
        invariant
            f == (|t: TestCaseView| t.gaps),
            all == views(tests@),
            i <= tests@.len(),
            views(out@) == flat(all.take(i as int), f),
        decreases tests@.len() - i,
    {
        proof {
            take_step(all, i as int);
        }
        let mut more = copy_all(&tests[i].gaps);
        out.append(&mut more);
        i += 1;
    }
    proof {
        take_all(all);
    }
    out
}

/// The gaps of all tests, given those about their intent.
fn merge_gaps(tests: &Vec<TestCase>, intent: Vec<AnalysisGap>) -> (r: Vec<AnalysisGap>)
    requires
        views(intent@) == sorted::<AnalysisGap, ByGap>(intent_gaps(views(tests@))),
    ensures
        views(r@) == all_gaps(views(tests@)),
{
    let mut intent = intent;
    let mut gaps = gather_gaps(tests);
    let ghost first = views(gaps@);
    let ghost second = views(intent@);
    gaps.append(&mut intent);
    assert(views(gaps@) =~= first + second);
    sort::<AnalysisGap, ByGapLine>(gaps)
}

/// The errors of a validation that has read all it could.
fn close_errors(
    errors: Vec<OperationalError>,
    tests: &Vec<TestCase>,
    expired: bool,
    timeout: Option<u64>,
) -> (r: Vec<OperationalError>)
    ensures
        views(r@) == closing_errors(views(tests@), views(errors@), expired, timeout),
{
    let mut errors = errors;
    if tests.len() == 0 && errors.len() == 0 {
        errors.push(
            operational_error(
                "input.no-tests",
                "no Rust tests were discovered in the selected files",
            ),
        );
    }
    if expired && !holds_timeout(&errors) {
        errors.push(timeout_error(timeout));
    }
    errors
}

impl Session {
    /// The report of what was read and found; `expired` tells whether the time was over
    /// once the rules were applied.
    pub fn close(
        self,
        policy: &TestPolicyConfig,
        expired: bool,
        timeout: Option<u64>,
        version: &'static str,
    ) -> (r: ValidationReport)
        ensures
            reports(r@, self@, policy@, expired, timeout, version@),
    {
        let Session { tests, processed_files, errors } = self;
        let evaluation = evaluate(&tests, policy);
        let errors = close_errors(errors, &tests, expired, timeout);
        let analysis_gaps = merge_gaps(&tests, evaluation.analysis_gaps);
        let tests_with_findings = count_finding_tests(&evaluation.findings);
        let partially_analyzed_tests = count_gap_tests(&analysis_gaps);
        let status = if errors.len() == 0 {
            ReportStatus::Complete
        } else {
            ReportStatus::Incomplete
        };
        ValidationReport {
            schema_version: REPORT_SCHEMA_VERSION,
            tool: ToolInfo { name: "cntryl-tools", version },
            status,
            root: ".".to_owned(),
            summary: ValidationSummary {
                total_files: processed_files,
                total_tests: tests.len(),
                fully_analyzed_tests: tests.len().saturating_sub(partially_analyzed_tests),
                partially_analyzed_tests,
                tests_with_findings,
                findings: evaluation.findings.len(),
                applied_exemptions: evaluation.exemptions.len(),
            },
            findings: evaluation.findings,
            analysis_gaps,
            exemptions: evaluation.exemptions,
            errors,
        }
    }
}

/// A report once the time is over.
pub open spec fn expired_report(
    report: ValidationReportView,
    timeout: Option<u64>,
) -> ValidationReportView {
    if has_timeout(report.errors) {
        report
    } else {
        ValidationReportView {
            status: ReportStatus::Incomplete,
            errors: report.errors.push(timeout_error_of(timeout)),
            ..report
        }
    }
}

/// Marks a report as incomplete because the time is over.
pub fn expire(report: &mut ValidationReport, timeout: Option<u64>)
    ensures
        final(report)@ == expired_report(old(report)@, timeout),
{
    if !holds_timeout(&report.errors) {
        report.status = ReportStatus::Incomplete;
        report.errors.push(timeout_error(timeout));
    }
}

pub open spec fn empty_summary() -> ValidationSummary {
    ValidationSummary {
        total_files: 0,
        total_tests: 0,
        fully_analyzed_tests: 0,
        partially_analyzed_tests: 0,
        tests_with_findings: 0,
        findings: 0,
        applied_exemptions: 0,
    }
}

/// The report of a validation that could not be carried out.
pub open spec fn failure_report(
    code: Seq<char>,
    message: Seq<char>,
    version: Seq<char>,
) -> ValidationReportView {
    ValidationReportView {
        schema_version: REPORT_SCHEMA_VERSION@,
        tool: ToolInfoView { name: "cntryl-tools"@, version },
        status: ReportStatus::Incomplete,
        root: "."@,
        summary: empty_summary(),
        findings: seq![],
        analysis_gaps: seq![],
        exemptions: seq![],
        errors: seq![error_of(code, message)],
    }
}

pub fn operational_failure(code: &str, message: &str, version: &'static str) -> (r:
    ValidationReport)
    ensures
        r@ == failure_report(code@, message@, version@),
{
    let mut errors: Vec<OperationalError> = Vec::new();
    errors.push(operational_error(code, message));
    let r = ValidationReport {
        schema_version: REPORT_SCHEMA_VERSION,
        tool: ToolInfo { name: "cntryl-tools", version },
        status: ReportStatus::Incomplete,
        root: ".".to_owned(),
        summary: ValidationSummary {
            total_files: 0,
            total_tests: 0,
            fully_analyzed_tests: 0,
            partially_analyzed_tests: 0,
            tests_with_findings: 0,
            findings: 0,
            applied_exemptions: 0,
        },
        findings: Vec::new(),
        analysis_gaps: Vec::new(),
        exemptions: Vec::new(),
        errors,
    };
    assert(r@ =~= failure_report(code@, message@, version@));
    r
}

/// A validation that could not be carried out ends with exit code 2.
pub proof fn failure_exits_with_two(code: Seq<char>, message: Seq<char>, version: Seq<char>)
    ensures
        report::exit_code_of(failure_report(code, message, version)) == 2,
{
}

/// What is said of a report that could not be written.
pub open spec fn write_failure_message(
    target: (ReportFormat, Seq<char>),
    error: Seq<char>,
) -> Seq<char> {
    "failed to emit "@ + target.0.word() + " report "@ + target.1 + ": "@ + error
}

pub fn write_failure(target: &ReportTarget, error: &str) -> (r: String)
    ensures
        r@ == write_failure_message(target@, error@),
{
    let mut message = "failed to emit ".to_owned();
    message.append(target.format.name());
    message.append(" report ");
    message.append(target.path.as_str());
    message.append(": ");
    message.append(error);
    message
}

/// What is said of a written report that could not be replaced by an incomplete one.
pub open spec fn replace_failure_message(
    target: (ReportFormat, Seq<char>),
    error: Seq<char>,
    cleanup: Option<Seq<char>>,
) -> Seq<char> {
    "failed to replace "@ + target.0.word() + " report "@ + target.1
        + " with an incomplete report: "@ + error + (match cleanup {
        Some(cleanup) => "; also failed to remove the stale report: "@ + cleanup,
        None => ""@,
    })
}

pub fn replace_failure(target: &ReportTarget, error: &str, cleanup: Option<&str>) -> (r: String)
    ensures
        r@ == replace_failure_message(target@, error@, option_view(cleanup)),
{
    let mut message = "failed to replace ".to_owned();
    message.append(target.format.name());
    message.append(" report ");
    message.append(target.path.as_str());
    message.append(" with an incomplete report: ");
    message.append(error);
    let rest = match cleanup {
        Some(cleanup) => {
            let mut rest = "; also failed to remove the stale report: ".to_owned();
            rest.append(cleanup);
            rest
        },
        None => "".to_owned(),
    };
    message.append(rest.as_str());
    message
}

/// The errors of reports that could not be written.
pub open spec fn write_errors(failures: Seq<Seq<char>>) -> Seq<OperationalErrorView> {
    Seq::new(failures.len(), |i: int| error_of("report.write-failed"@, failures[i]))
}

/// Notes in a report that reports could not be written, which makes it incomplete.
pub fn note_write_failures(report: &mut ValidationReport, failures: &Vec<String>)
    ensures
        final(report)@ == (if failures@.len() == 0 {
            old(report)@
        } else {
            ValidationReportView {
                status: ReportStatus::Incomplete,
                errors: old(report)@.errors + write_errors(views(failures@)),
                ..old(report)@
            }
        }),
{
    if failures.len() == 0 {
        return ;
    }
    report.status = ReportStatus::Incomplete;
    let ghost before = report@;
    let ghost want = write_errors(views(failures@));
    let mut i: usize = 0;
    assert(before.errors =~= before.errors + want.take(0));
    while i < failures.len()
        invariant
            want == write_errors(views(failures@)),
            i <= failures@.len(),
            report@ == (ValidationReportView {
                errors: before.errors + want.take(i as int),
                ..before
            }),
        decreases failures@.len() - i,
    {
        report.errors.push(operational_error("report.write-failed", failures[i].as_str()));
        i += 1;
        assert(report@.errors =~= before.errors + want.take(i as int));
    }
    proof {
        take_all(want);
    }
}

/// Why the inputs of a validation cannot be used.
#[derive(Debug, Clone, PartialEq, Eq)]
pub enum InputError {
    DeadlineDuringDiscovery,
    DeadlineDuringSelection,
    NotRust { path: String },
    Outside { path: String, root: String },
    Unresolved { path: String },
    WalkFailed { root: String },
    NoFiles,
}

/// What is said of inputs that cannot be used.
pub open spec fn input_message(error: InputError) -> Seq<char> {
    match error {
        InputError::DeadlineDuringDiscovery =>
            "test analysis deadline exceeded during source discovery"@,
        InputError::DeadlineDuringSelection =>
            "test analysis deadline exceeded while resolving selected files"@,
        InputError::NotRust { path } => "test-validation input must be a Rust source file: "@
            + path@,
        InputError::Outside { path, root } => "test-validation input "@ + path@
            + " is outside repository root "@ + root@,
        InputError::Unresolved { path } => "failed to resolve test-validation input "@ + path@,
        InputError::WalkFailed { root } => "failed while walking source root "@ + root@,
        InputError::NoFiles => "no Rust source files found under the selected inputs"@,
    }
}

impl InputError {
    pub fn message(&self) -> (r: String)
        ensures
            r@ == input_message(*self),
    {
        match self {
            InputError::DeadlineDuringDiscovery =>
                "test analysis deadline exceeded during source discovery".to_owned(),
            InputError::DeadlineDuringSelection =>
                "test analysis deadline exceeded while resolving selected files".to_owned(),
            InputError::NotRust { path } => {
                let mut text = "test-validation input must be a Rust source file: ".to_owned();
                text.append(path.as_str());
                text
            },
            InputError::Outside { path, root } => {
                let mut text = "test-validation input ".to_owned();
                text.append(path.as_str());
                text.append(" is outside repository root ");
                text.append(root.as_str());
                text
            },
            InputError::Unresolved { path } => {
                let mut text = "failed to resolve test-validation input ".to_owned();
                text.append(path.as_str());
                text
            },
            InputError::WalkFailed { root } => {
                let mut text = "failed while walking source root ".to_owned();
                text.append(root.as_str());
                text
            },
            InputError::NoFiles =>
                "no Rust source files found under the selected inputs".to_owned(),
        }
    }
}

/// Why a validation cannot be carried out.
#[derive(Debug, Clone, PartialEq, Eq)]
pub enum RunFailure {
    /// The repository's root cannot be resolved.
    UnresolvedRoot { root: String, error: String },
    /// Both reports would be written to the same file.
    CollidingReports,
    RootIsNoDirectory { root: String },
    /// The time was over before anything was analyzed.
    Expired { timeout: Option<u64> },
    /// The policy cannot be used.
    Policy { error: String },
    /// The inputs cannot be used.
    Input { error: String },
}

/// The code of a failure.
pub open spec fn failure_code(failure: RunFailure) -> Seq<char> {
    match failure {
        RunFailure::UnresolvedRoot { .. } => "input.read-failed"@,
        RunFailure::CollidingReports => "input.invalid"@,
        RunFailure::RootIsNoDirectory { .. } => "input.invalid"@,
        RunFailure::Expired { .. } => "analysis.timeout"@,
        RunFailure::Policy { .. } => "config.invalid"@,
        RunFailure::Input { .. } => "input.invalid"@,
    }
}

/// What is said of a failure.
pub open spec fn failure_message(failure: RunFailure) -> Seq<char> {
    match failure {
        RunFailure::UnresolvedRoot { root, error } => "failed to resolve repository root "@ + root@
            + ": "@ + error@,
        RunFailure::CollidingReports => "--json and --sarif must use different output paths"@,
        RunFailure::RootIsNoDirectory { root } => "repository root is not a directory: "@ + root@,
        RunFailure::Expired { timeout } => timeout_error_of(timeout).message,
        RunFailure::Policy { error } => error@,
        RunFailure::Input { error } => error@,
    }
}

impl RunFailure {
    fn code(&self) -> (r: &'static str)
        ensures
            r@ == failure_code(*self),
    {
        match self {
            RunFailure::UnresolvedRoot { .. } => "input.read-failed",
            RunFailure::CollidingReports => "input.invalid",
            RunFailure::RootIsNoDirectory { .. } => "input.invalid",
            RunFailure::Expired { .. } => "analysis.timeout",
            RunFailure::Policy { .. } => "config.invalid",
            RunFailure::Input { .. } => "input.invalid",
        }
    }

    fn message(&self) -> (r: String)
        ensures
            r@ == failure_message(*self),
    {
        match self {
            RunFailure::UnresolvedRoot { root, error } => {
                let mut text = "failed to resolve repository root ".to_owned();
                text.append(root.as_str());
                text.append(": ");
                text.append(error.as_str());
                text
            },
            RunFailure::CollidingReports => {
                "--json and --sarif must use different output paths".to_owned()
            },
            RunFailure::RootIsNoDirectory { root } => {
                let mut text = "repository root is not a directory: ".to_owned();
                text.append(root.as_str());
                text
            },
            RunFailure::Expired { timeout } => timeout_error(*timeout).message,
            RunFailure::Policy { error } => error.clone(),
            RunFailure::Input { error } => error.clone(),
        }
    }

    /// The failure of inputs that cannot be used: the end of the time, where that is what
    /// kept them from being read.
    pub fn of_inputs(error: String, expired: bool, timeout: Option<u64>) -> (r: RunFailure)
        ensures
            r == (if expired {
                RunFailure::Expired { timeout }
            } else {
                RunFailure::Input { error }
            }),
    {
        if expired {
            RunFailure::Expired { timeout }
        } else {
            RunFailure::Input { error }
        }
    }

    /// The report of a validation that cannot be carried out.
    pub fn report(&self, version: &'static str) -> (r: ValidationReport)
        ensures
            r@ == failure_report(failure_code(*self), failure_message(*self), version@),
    {
        operational_failure(self.code(), self.message().as_str(), version)
    }
}

/// The path of a file inside the repository as it is reported.
pub fn relative_path(file: &FilePath) -> (r: String)
    ensures
        r@ == crate::text::with_char(crate::text::joined(file@, "/"@), '\\', '/'),
{
    crate::text::replace_char(crate::text::join(&file.components, "/").as_str(), '\\', '/')
}

} // verus!
