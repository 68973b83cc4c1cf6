//! Which files are read, how long a validation may take, and what it ends with.

use vstd::prelude::*;

use super::model::{OperationalErrorView, TestCaseView, ValidationReportView};
use super::report::{exit_code_of, human, human_streams_of, report_path};
use super::{
    closing_errors, collide, digits_value, discovered, duration_of, duration_parts, expired,
    expired_report, has_timeout, lexically_normal, number_of, path_before, same_ignoring_case,
    with_timeout, without_repeats, PathPartView, ReportPathParts,
};
use crate::seqs::views;
use crate::text::{decimal, has_prefix, has_suffix, text_less};
use crate::text_laws::decimal_digits_stand_for_the_number;

verus! {

/// Whether two characters are the same but for the case of an ASCII letter.
pub open spec fn same_letter(a: char, b: char) -> bool {
    ||| a == b
    ||| 'a' <= a && a <= 'z' && a as int - b as int == 32
    ||| 'a' <= b && b <= 'z' && b as int - a as int == 32
}

/// Whether two names are the same but for the case of ASCII letters.
pub open spec fn same_name(a: Seq<char>, b: Seq<char>) -> bool {
    a.len() == b.len() && forall|i: int| 0 <= i < a.len() ==> same_letter(#[trigger] a[i], b[i])
}

/// Two reports collide where their paths are equal, and where the directory that both exist
/// in takes no notice of case also where only the case of letters differs below it.
pub proof fn reports_collide_on_one_path(
    left: ReportPathParts,
    right: ReportPathParts,
    case_insensitive: bool,
)
    ensures
        collide(left, left, case_insensitive),
        collide(left, right, case_insensitive) == collide(right, left, case_insensitive),
        collide(left, right, false) <==> views(left.existing@) + views(left.missing@) == views(
            right.existing@,
        ) + views(right.missing@),
        collide(left, right, false) ==> collide(left, right, true),
        views(left.existing@) == views(right.existing@) ==> (collide(left, right, true) <==> {
            &&& left.missing@.len() == right.missing@.len()
            &&& forall|i: int|
                0 <= i < left.missing@.len() ==> same_name(
                    #[trigger] left.missing@[i]@,
                    right.missing@[i]@,
                )
        }),
{
    let a = views(left.missing@);
    let b = views(right.missing@);
    assert forall|i: int| 0 <= i < a.len() && i < b.len() implies same_ignoring_case(
        #[trigger] a[i],
        b[i],
    ) == same_name(left.missing@[i]@, right.missing@[i]@) && same_ignoring_case(a[i], b[i])
        == same_ignoring_case(b[i], a[i]) by {
        same_names(a[i], b[i]);
    }
    if views(left.existing@) == views(right.existing@) {
        if left.whole() == right.whole() {
            let n = views(left.existing@).len() as int;
            assert(a =~= left.whole().skip(n));
            assert(b =~= right.whole().skip(n));
            assert forall|i: int| 0 <= i < left.missing@.len() implies same_name(
                #[trigger] left.missing@[i]@,
                right.missing@[i]@,
            ) by {
                assert(a[i] == b[i]);
            }
        }
        if a.len() == b.len() && (forall|i: int|
            0 <= i < left.missing@.len() ==> same_name(
                #[trigger] left.missing@[i]@,
                right.missing@[i]@,
            )) {
            assert forall|i: int| 0 <= i < a.len() implies same_ignoring_case(
                #[trigger] a[i],
                b[i],
            ) by {
                assert(same_name(left.missing@[i]@, right.missing@[i]@));
            }
        }
        if collide(left, right, true) && left.whole() != right.whole() {
            assert forall|i: int| 0 <= i < left.missing@.len() implies same_name(
                #[trigger] left.missing@[i]@,
                right.missing@[i]@,
            ) by {
                assert(same_ignoring_case(a[i], b[i]));
            }
        }
    }
    if collide(left, right, case_insensitive) && left.whole() != right.whole() {
        assert forall|i: int| 0 <= i < b.len() implies same_ignoring_case(#[trigger] b[i], a[i]) by {
            assert(same_ignoring_case(a[i], b[i]));
        }
    }
    if collide(right, left, case_insensitive) && left.whole() != right.whole() {
        assert forall|i: int| 0 <= i < a.len() implies same_ignoring_case(#[trigger] a[i], b[i]) by {
            assert(same_ignoring_case(b[i], a[i]));
        }
    }
}

proof fn same_names(a: Seq<char>, b: Seq<char>)
    ensures
        same_ignoring_case(a, b) == same_name(a, b),
        same_ignoring_case(a, b) == same_ignoring_case(b, a),
{
    if same_ignoring_case(a, b) {
        assert forall|i: int| 0 <= i < a.len() implies same_letter(#[trigger] a[i], b[i]) by {
            letters(a[i], b[i]);
        }
        assert forall|i: int| 0 <= i < b.len() implies super::ascii_lower(#[trigger] b[i])
            == super::ascii_lower(a[i]) by {
            assert(super::ascii_lower(a[i]) == super::ascii_lower(b[i]));
        }
    }
    if same_ignoring_case(b, a) {
        assert forall|i: int| 0 <= i < a.len() implies super::ascii_lower(#[trigger] a[i])
            == super::ascii_lower(b[i]) by {
            assert(super::ascii_lower(b[i]) == super::ascii_lower(a[i]));
        }
    }
    if same_name(a, b) {
        assert forall|i: int| 0 <= i < a.len() implies super::ascii_lower(#[trigger] a[i])
            == super::ascii_lower(b[i]) by {
            letters(a[i], b[i]);
        }
    }
}

proof fn letters(a: char, b: char)
    ensures
        same_letter(a, b) == (super::ascii_lower(a) == super::ascii_lower(b)),
{
}

/// A normal path has no `.` and no `..`. `.` and a name with `..` behind it make no
/// difference, and a path that has neither stays as it is.
pub proof fn normal_paths_have_no_dots(parts: Seq<PathPartView>, name: Seq<char>)
    ensures
        forall|i: int|
            0 <= i < lexically_normal(parts).len() ==> !(#[trigger] lexically_normal(parts)[i]
                is Current) && !(lexically_normal(parts)[i] is Parent),
        lexically_normal(parts.push(PathPartView::Current)) == lexically_normal(parts),
        lexically_normal(parts.push(PathPartView::Name(name)).push(PathPartView::Parent))
            == lexically_normal(parts),
        lexically_normal(parts.push(PathPartView::Name(name))) == lexically_normal(parts).push(
            PathPartView::Name(name),
        ),
        (forall|i: int|
            0 <= i < parts.len() ==> !(#[trigger] parts[i] is Current) && !(parts[i] is Parent))
            ==> lexically_normal(parts) == parts,
        lexically_normal(seq![PathPartView::Root(name), PathPartView::Parent]) == seq![
            PathPartView::Root(name),
        ],
        lexically_normal(lexically_normal(parts)) == lexically_normal(parts),
{
    normal_parts(parts);
    normal_parts(lexically_normal(parts));
    assert(parts.push(PathPartView::Current).drop_last() =~= parts);
    let named = parts.push(PathPartView::Name(name));
    assert(named.drop_last() =~= parts);
    assert(named.push(PathPartView::Parent).drop_last() =~= named);
    assert(lexically_normal(named) =~= lexically_normal(parts).push(PathPartView::Name(name)));
    assert(lexically_normal(named).drop_last() =~= lexically_normal(parts));
    let root = seq![PathPartView::Root(name)];
    let above = seq![PathPartView::Root(name), PathPartView::Parent];
    assert(above.drop_last() =~= root);
    assert(root.drop_last() =~= Seq::empty());
    assert(lexically_normal(Seq::empty()) =~= Seq::empty());
    assert(lexically_normal(root) =~= root);
}

proof fn normal_parts(parts: Seq<PathPartView>)
    ensures
        forall|i: int|
            0 <= i < lexically_normal(parts).len() ==> !(#[trigger] lexically_normal(parts)[i]
                is Current) && !(lexically_normal(parts)[i] is Parent),
        (forall|i: int|
            0 <= i < parts.len() ==> !(#[trigger] parts[i] is Current) && !(parts[i] is Parent))
            ==> lexically_normal(parts) == parts,
    decreases parts.len(),
{
    if parts.len() > 0 {
        let rest = parts.drop_last();
        normal_parts(rest);
        if forall|i: int|
            0 <= i < parts.len() ==> !(#[trigger] parts[i] is Current) && !(parts[i] is Parent) {
            assert forall|i: int| 0 <= i < rest.len() implies !(#[trigger] rest[i] is Current)
                && !(rest[i] is Parent) by {
                assert(rest[i] == parts[i]);
            }
            assert(!(parts[parts.len() - 1] is Current));
            assert(lexically_normal(parts) =~= parts);
        }
    }
}

/// Hidden files and directories and the build output are left out, but never the place where
/// the search starts.
pub proof fn hidden_files_are_left_out(depth: usize, name: Seq<char>)
    ensures
        depth == 0 ==> discovered(depth, name),
        depth > 0 ==> (discovered(depth, name) <==> name != "target"@ && (name.len() == 0 || name[0]
            != '.')),
{
    reveal_strlit(".");
    crate::text_laws::standing(name, "."@, 0);
    if name.len() > 0 && name[0] == '.' {
        assert(name.subrange(0, 1) =~= "."@);
    }
    if has_prefix(name, "."@) {
        assert("."@[0] == '.');
    }
}

/// Paths are ordered by the first component in which they differ, and a directory comes
/// before what lies in it.
pub proof fn paths_are_ordered_by_component(
    common: Seq<Seq<char>>,
    a: Seq<char>,
    b: Seq<char>,
    left: Seq<Seq<char>>,
    right: Seq<Seq<char>>,
)
    ensures
        a != b ==> path_before(common + seq![a] + left, common + seq![b] + right) == text_less(a, b),
        path_before(common, common + seq![a] + left),
        !path_before(common + seq![a] + left, common),
        !path_before(common, common),
    decreases common.len(),
{
    let x = common + seq![a] + left;
    let y = common + seq![b] + right;
    if common.len() == 0 {
        assert(x[0] == a && y[0] == b);
    } else {
        let rest = common.skip(1);
        paths_are_ordered_by_component(rest, a, b, left, right);
        assert(x.skip(1) =~= rest + seq![a] + left);
        assert(y.skip(1) =~= rest + seq![b] + right);
        assert(x[0] == common[0] && y[0] == common[0]);
    }
}

/// No path is read twice in a row, and none is left out.
pub proof fn repeated_paths_are_read_once(paths: Seq<Seq<Seq<char>>>)
    ensures
        without_repeats(paths).to_set() == paths.to_set(),
        forall|i: int|
            0 <= i < without_repeats(paths).len() - 1 ==> #[trigger] without_repeats(paths)[i]
                != without_repeats(paths)[i + 1],
        paths.len() > 0 ==> without_repeats(paths).len() > 0 && without_repeats(paths).last()
            == paths.last(),
    decreases paths.len(),
{
    if paths.len() > 0 {
        let rest = paths.drop_last();
        repeated_paths_are_read_once(rest);
        let some = without_repeats(rest);
        let all = without_repeats(paths);
        assert forall|x: Seq<Seq<char>>| paths.contains(x) == (rest.contains(x) || x
            == paths.last()) by {
            if paths.contains(x) {
                let i = paths.index_of(x);
                if i < rest.len() {
                    assert(rest[i] == x);
                }
            }
            if rest.contains(x) {
                let i = rest.index_of(x);
                assert(paths[i] == x);
            }
            if x == paths.last() {
                assert(paths[paths.len() - 1] == x);
            }
        }
        assert forall|x: Seq<Seq<char>>| some.contains(x) == rest.contains(x) by {
            assert(some.to_set().contains(x) == rest.to_set().contains(x));
        }
        if paths.len() > 1 && paths[paths.len() - 2] == paths.last() {
            assert(rest.last() == paths.last());
            assert(rest[rest.len() - 1] == paths.last());
            assert(rest.contains(paths.last()));
            assert(all == some);
        } else {
            assert(all == some.push(paths.last()));
            assert forall|x: Seq<Seq<char>>| all.contains(x) == (some.contains(x) || x
                == paths.last()) by {
                if all.contains(x) {
                    let i = all.index_of(x);
                    if i < some.len() {
                        assert(some[i] == x);
                    }
                }
                if some.contains(x) {
                    let i = some.index_of(x);
                    assert(all[i] == x);
                }
                if x == paths.last() {
                    assert(all[all.len() - 1] == x);
                }
            }
            assert forall|i: int| 0 <= i < all.len() - 1 implies #[trigger] all[i] != all[i + 1] by {
                if i < some.len() - 1 {
                    assert(some[i] != some[i + 1]);
                } else {
                    assert(all[i] == some.last());
                    assert(rest.len() > 0);
                    assert(some.last() == rest.last());
                    assert(rest.last() == paths[paths.len() - 2]);
                }
            }
        }
        assert(all.to_set() =~= paths.to_set());
    }
}

/// The digits of a number stand for it, with a plus sign or without; a text with anything
/// else in it stands for no number.
pub proof fn numbers_are_read_as_written(n: u64, s: Seq<char>, i: int)
    ensures
        number_of(decimal(n as nat)) == Some(n),
        number_of(seq!['+'] + decimal(n as nat)) == Some(n),
        number_of(Seq::empty()) is None,
        0 < i < s.len() && !('0' <= s[i] && s[i] <= '9') ==> number_of(s) is None,
        s.len() > 0 && !('0' <= s[0] && s[0] <= '9') && s[0] != '+' ==> number_of(s) is None,
{
    let digits = decimal(n as nat);
    decimal_digits_stand_for_the_number(n as nat);
    same_value(digits);
    assert((seq!['+'] + digits).skip(1) =~= digits);
    if 0 < i < s.len() && !('0' <= s[i] && s[i] <= '9') {
        if s[0] == '+' {
            assert(s.skip(1)[i - 1] == s[i]);
            assert(!super::all_digits(s.skip(1)));
        } else {
            assert(!super::all_digits(s));
        }
    }
}

proof fn same_value(s: Seq<char>)
    requires
        super::all_digits(s),
    ensures
        digits_value(s) == crate::text_laws::number_of(s),
    decreases s.len(),
{
    if s.len() > 0 {
        let rest = s.drop_last();
        assert forall|i: int| 0 <= i < rest.len() implies super::is_digit(#[trigger] rest[i]) by {
            assert(rest[i] == s[i]);
        }
        assert(super::is_digit(s[s.len() - 1]));
        same_value(rest);
    }
}

/// A duration is written in milliseconds, seconds or minutes, and in seconds where no unit is
/// written; it is refused exactly where it does not fit.
pub proof fn durations_are_read_in_their_unit(n: u64)
    ensures
        duration_of(decimal(n as nat) + "ms"@) == Ok::<u64, Seq<char>>(n),
        n * 1_000 <= u64::MAX ==> duration_of(decimal(n as nat) + "s"@) == Ok::<u64, Seq<char>>(
            (n * 1_000) as u64,
        ) && duration_of(decimal(n as nat)) == Ok::<u64, Seq<char>>((n * 1_000) as u64),
        n * 1_000 > u64::MAX ==> duration_of(decimal(n as nat) + "s"@) is Err && duration_of(
            decimal(n as nat),
        ) is Err,
        n * 60_000 <= u64::MAX ==> duration_of(decimal(n as nat) + "m"@) == Ok::<u64, Seq<char>>(
            (n * 60_000) as u64,
        ),
        n * 60_000 > u64::MAX ==> duration_of(decimal(n as nat) + "m"@) is Err,
        duration_of("ms"@) is Err,
        duration_of(Seq::empty()) is Err,
{
    reveal_strlit("ms");
    reveal_strlit("s");
    reveal_strlit("m");
    let digits = decimal(n as nat);
    decimal_digits_stand_for_the_number(n as nat);
    numbers_are_read_as_written(n, digits, 0);
    let ms = digits + "ms"@;
    let s = digits + "s"@;
    let m = digits + "m"@;
    assert("ms"@[0] == 'm' && "ms"@[1] == 's' && "s"@[0] == 's' && "m"@[0] == 'm');
    ends_in(ms, "ms"@);
    ends_in(s, "ms"@);
    ends_in(s, "s"@);
    ends_in(m, "ms"@);
    ends_in(m, "s"@);
    ends_in(m, "m"@);
    ends_in(digits, "ms"@);
    ends_in(digits, "s"@);
    ends_in(digits, "m"@);
    assert(ms.take(ms.len() - 2) =~= digits);
    assert(s.take(s.len() - 1) =~= digits);
    assert(m.take(m.len() - 1) =~= digits);
    assert(s[s.len() - 2] == digits[digits.len() - 1]);
    assert(m[m.len() - 1] == 'm');
    assert(has_suffix(ms, "ms"@)) by {
        assert(ms.subrange(ms.len() - 2, ms.len() as int) =~= "ms"@);
        crate::text_laws::standing(ms, "ms"@, ms.len() - 2);
    }
    assert(has_suffix(s, "s"@)) by {
        assert(s.subrange(s.len() - 1, s.len() as int) =~= "s"@);
        crate::text_laws::standing(s, "s"@, s.len() - 1);
    }
    assert(has_suffix(m, "m"@)) by {
        assert(m.subrange(m.len() - 1, m.len() as int) =~= "m"@);
        crate::text_laws::standing(m, "m"@, m.len() - 1);
    }
    assert(duration_parts(ms) == (digits, 1u64));
    assert(n * 1 == n);
    ends_in("ms"@, "ms"@);
    assert(has_suffix("ms"@, "ms"@)) by {
        assert("ms"@.subrange(0, 2) =~= "ms"@);
        crate::text_laws::standing("ms"@, "ms"@, 0);
    }
    assert("ms"@.take(0) =~= Seq::empty());
    let none = Seq::<char>::empty();
    ends_in(none, "ms"@);
    ends_in(none, "s"@);
    ends_in(none, "m"@);
}

proof fn ends_in(s: Seq<char>, suffix: Seq<char>)
    requires
        suffix.len() > 0,
    ensures
        has_suffix(s, suffix) ==> s.len() >= suffix.len() && s.last() == suffix.last() && (
        suffix.len() == 2 ==> s[s.len() - 2] == suffix[0]),
{
    if has_suffix(s, suffix) {
        let at = s.len() - suffix.len();
        crate::text_laws::standing(s, suffix, at);
        assert(s[at + (suffix.len() - 1)] == suffix[suffix.len() - 1]);
        assert(s[at + 0] == suffix[0]);
    }
}

/// Without a limit the time is never over; with one it is over from that time on, and stays
/// so.
pub proof fn time_is_over_at_the_limit(elapsed: u64, later: u64, limit: u64)
    requires
        elapsed <= later,
    ensures
        !expired(elapsed, None),
        expired(elapsed, Some(limit)) <==> limit <= elapsed,
        expired(elapsed, Some(limit)) ==> expired(later, Some(limit)),
{
}

/// Whether one of some errors has a code.
pub open spec fn has_error(errors: Seq<OperationalErrorView>, code: Seq<char>) -> bool {
    exists|i: int| 0 <= i < errors.len() && (#[trigger] errors[i]).code == code
}

/// A validation that read everything without an error fails for want of tests exactly where
/// there are none. One whose time is over says so, once, and keeps all other errors.
pub proof fn errors_at_the_end(
    tests: Seq<TestCaseView>,
    errors: Seq<OperationalErrorView>,
    over: bool,
    timeout: Option<u64>,
)
    ensures
        errors.is_prefix_of(closing_errors(tests, errors, over, timeout)),
        !has_error(errors, "input.no-tests"@) ==> (has_error(
            closing_errors(tests, errors, over, timeout),
            "input.no-tests"@,
        ) <==> tests.len() == 0 && errors.len() == 0),
        over ==> has_error(closing_errors(tests, errors, over, timeout), "analysis.timeout"@),
        !over && !has_error(errors, "analysis.timeout"@) ==> !has_error(
            closing_errors(tests, errors, over, timeout),
            "analysis.timeout"@,
        ),
        with_timeout(with_timeout(errors, timeout), timeout) == with_timeout(errors, timeout),
        tests.len() > 0 && !over ==> closing_errors(tests, errors, over, timeout) == errors,
{
    reveal_strlit("input.no-tests");
    reveal_strlit("analysis.timeout");
    assert("input.no-tests"@.len() == 14 && "analysis.timeout"@.len() == 16);
    let all = closing_errors(tests, errors, over, timeout);
    let found = closing_errors(tests, errors, false, timeout);
    if tests.len() == 0 && errors.len() == 0 {
        assert(found[errors.len() as int].code == "input.no-tests"@);
        assert(all[errors.len() as int].code == "input.no-tests"@);
    }
    if over && !has_timeout(found) {
        assert(all[found.len() as int].code == "analysis.timeout"@);
    }
    if over && has_timeout(found) {
        let i = choose|i: int|
            0 <= i < found.len() && (#[trigger] found[i]).code == "analysis.timeout"@;
        assert(all[i].code == "analysis.timeout"@);
    }
    if has_error(all, "input.no-tests"@) && !has_error(errors, "input.no-tests"@) {
        let i = choose|i: int|
            0 <= i < all.len() && (#[trigger] all[i]).code == "input.no-tests"@;
        if i < errors.len() {
            assert(errors[i] == all[i]);
        }
    }
    let once = with_timeout(errors, timeout);
    if !has_timeout(errors) {
        assert(once[errors.len() as int].code == "analysis.timeout"@);
    }
    assert(has_timeout(once));
}

/// A report whose time is over is incomplete and ends with the code for that; nothing that
/// was found is lost.
pub proof fn expired_reports_are_incomplete(report: ValidationReportView, timeout: Option<u64>)
    ensures
        exit_code_of(expired_report(report, timeout)) == 2,
        expired_report(report, timeout).findings == report.findings,
        expired_report(report, timeout).analysis_gaps == report.analysis_gaps,
        expired_report(report, timeout).exemptions == report.exemptions,
        expired_report(report, timeout).summary == report.summary,
        report.errors.is_prefix_of(expired_report(report, timeout).errors),
        has_error(expired_report(report, timeout).errors, "analysis.timeout"@),
{
    let all = expired_report(report, timeout).errors;
    if !has_timeout(report.errors) {
        assert(all[report.errors.len() as int].code == "analysis.timeout"@);
    }
}

/// Reported paths have forward slashes only, and lose one `./` at their start.
pub proof fn reported_paths(path: Seq<char>, i: int)
    ensures
        !(path.len() > 1 && path[0] == '.' && (path[1] == '/' || path[1] == '\\')) ==> report_path(
            path,
        ).len() == path.len() && (0 <= i < path.len() ==> report_path(path)[i] == if path[i]
            == '\\' {
            '/'
        } else {
            path[i]
        }),
        path.len() > 1 && path[0] == '.' && (path[1] == '/' || path[1] == '\\') ==> report_path(
            path,
        ).len() == path.len() - 2 && (2 <= i < path.len() ==> report_path(path)[i - 2] == if path[i]
            == '\\' {
            '/'
        } else {
            path[i]
        }),
{
    reveal_strlit("./");
    let slashed = crate::text::with_char(path, '\\', '/');
    crate::text_laws::standing(slashed, "./"@, 0);
    assert("./"@[0] == '.' && "./"@[1] == '/');
    if path.len() > 1 && path[0] == '.' && (path[1] == '/' || path[1] == '\\') {
        assert(slashed[0] == '.' && slashed[1] == '/');
        assert(slashed.subrange(0, 2) =~= "./"@);
    }
    if has_prefix(slashed, "./"@) {
        assert(slashed[0] == "./"@[0]);
        assert(slashed[1] == "./"@[1]);
    }
}

/// Without errors everything goes to the standard output; with errors the findings do and
/// the error output tells of the errors.
pub proof fn errors_go_to_the_error_output(report: ValidationReportView)
    ensures
        report.errors.len() == 0 ==> human_streams_of(report).0 == human(report)
            && human_streams_of(report).1.len() == 0,
        report.errors.len() > 0 ==> human_streams_of(report).1.len() > 0,
{
    reveal_strlit("");
    reveal_strlit("Validation ");
}

} // verus!
