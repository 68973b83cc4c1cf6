//! What a policy accepts and matches, told by the texts in it.

use vstd::prelude::*;

use super::config::{
    configured_matches, exemption_fault, exemption_for, first_exemption_fault, name_matches,
    normalized_path, policy_fault, safe_relative_path, same_exemption, TestExemptionView,
    TestPolicyView,
};
use crate::seqs::{first_where, first_where_at, first_where_none};
use crate::text::{after_last, is_whitespace, pieces, with_char, without_leading};
use crate::text_laws::{
    contained_is_occurring, last_separator_parts_a_text, occurs_in, prefixes_and_suffixes,
    stands_at,
};

verus! {

/// Whether a name is a segment of a path: no two colons stand in it, and none at its start.
pub open spec fn is_one_segment(name: Seq<char>) -> bool {
    !occurs_in(name, "::"@) && (name.len() > 0 ==> name[0] != ':')
}

/// A name is configured exactly where the list holds it, or holds its last segment as a name
/// of one segment.
pub proof fn names_are_configured_in_full_or_by_their_end(
    configured: Seq<Seq<char>>,
    qualified: Seq<char>,
)
    ensures
        configured_matches(configured, qualified) <==> exists|i: int|
            0 <= i < configured.len() && {
                ||| #[trigger] configured[i] == qualified
                ||| is_one_segment(configured[i]) && ("::"@ + configured[i]).is_suffix_of(qualified)
            },
{
    assert forall|i: int| 0 <= i < configured.len() implies name_matches(
        #[trigger] configured[i],
        qualified,
    ) == (configured[i] == qualified || (is_one_segment(configured[i]) && ("::"@
        + configured[i]).is_suffix_of(qualified))) by {
        last_segment(configured[i], qualified);
    }
    if configured_matches(configured, qualified) {
        let i = choose|i: int|
            0 <= i < configured.len() && name_matches(#[trigger] configured[i], qualified);
        assert(name_matches(configured[i], qualified));
    }
}

proof fn last_segment(name: Seq<char>, qualified: Seq<char>)
    ensures
        name_matches(name, qualified) == (name == qualified || (is_one_segment(name) && ("::"@
            + name).is_suffix_of(qualified))),
{
    let sep = "::"@;
    reveal_strlit("::");
    contained_is_occurring(name, sep);
    last_separator_parts_a_text(qualified, sep);
    let last = after_last(qualified, sep);
    if !occurs_in(name, sep) && name != qualified {
        if name == last {
            assert(occurs_in(qualified, sep));
            let at = qualified.len() - name.len() - 2;
            let end = qualified.subrange(at, qualified.len() as int);
            assert(end =~= sep + name);
            if name.len() > 0 && name[0] == ':' {
                after_last_starts_no_colon(qualified);
            }
        }
        if is_one_segment(name) && (sep + name).is_suffix_of(qualified) {
            let at = qualified.len() - name.len() - 2;
            let end = qualified.subrange(at, qualified.len() as int);
            assert(end =~= sep + name);
            assert(stands_at(qualified, sep, at)) by {
                assert forall|k: int| 0 <= k < 2 implies qualified[at + k] == #[trigger] sep[k] by {
                    assert(end[k] == qualified[at + k]);
                }
            }
            assert(occurs_in(qualified, sep));
            assert((sep + last).is_suffix_of(qualified));
            let other = qualified.len() - last.len() - 2;
            let tail = qualified.subrange(other, qualified.len() as int);
            assert(tail =~= sep + last);
            if at < other {
                // The last separator stands inside of the name, or overlaps with the one
                // before the name.
                assert forall|k: int| 0 <= k < 2 implies qualified[other + k]
                    == #[trigger] sep[k] by {
                    assert(tail[k] == qualified[other + k]);
                }
                if other >= at + 2 {
                    assert(stands_at(name, sep, other - at - 2)) by {
                        assert forall|k: int| 0 <= k < 2 implies name[other - at - 2 + k]
                            == #[trigger] sep[k] by {
                            assert(end[other - at + k] == name[other - at - 2 + k]);
                            assert(end[other - at + k] == qualified[other + k]);
                        }
                    }
                    assert(occurs_in(name, sep));
                } else {
                    // Three colons in a row: the name would start with one.
                    assert(other == at + 1);
                    assert(tail[1] == ':');
                    assert(end[2] == name[0]);
                }
            } else if at > other {
                if at >= other + 2 {
                    assert(stands_at(last, sep, at - other - 2)) by {
                        assert forall|k: int| 0 <= k < 2 implies last[at - other - 2 + k]
                            == #[trigger] sep[k] by {
                            assert(tail[at - other + k] == last[at - other - 2 + k]);
                            assert(tail[at - other + k] == qualified[at + k]);
                            assert(end[k] == qualified[at + k]);
                        }
                    }
                    assert(occurs_in(last, sep));
                } else {
                    after_last_starts_no_colon(qualified);
                    assert(at == other + 1);
                    assert(end[1] == qualified[at + 1]);
                    assert(tail[2] == qualified[other + 2]);
                    assert(tail[2] == last[0]);
                }
            } else {
                assert(name =~= last) by {
                    assert(name =~= end.skip(2));
                    assert(last =~= tail.skip(2));
                }
            }
        }
    }
}

proof fn after_last_starts_no_colon(qualified: Seq<char>)
    requires
        occurs_in(qualified, "::"@),
    ensures
        after_last(qualified, "::"@).len() > 0 ==> after_last(qualified, "::"@)[0] != ':',
{
    let sep = "::"@;
    reveal_strlit("::");
    let n = qualified.len() as int;
    crate::text::find_back_found(qualified, sep, n - 2);
    match crate::text::find_back(qualified, sep, n - 2) {
        Some(i) => {
            let last = after_last(qualified, sep);
            if last.len() > 0 && last[0] == ':' {
                assert(last[0] == qualified[i + 2]);
                assert(qualified.subrange(i, i + 2)[1] == qualified[i + 1]);
                assert(qualified.subrange(i + 1, i + 3) =~= sep);
                assert(crate::text::matches_at(qualified, sep, i + 1));
            }
        },
        None => {
            let i = choose|i: int| #[trigger] stands_at(qualified, sep, i);
            crate::text_laws::standing(qualified, sep, i);
        },
    }
}

/// The exemption of a finding is the first that names its rule, its test and its file, and
/// there is none exactly where no exemption does.
pub proof fn exemptions_name_rule_file_and_test(
    exemptions: Seq<TestExemptionView>,
    rule_id: Seq<char>,
    path: Seq<char>,
    test: Seq<char>,
)
    ensures
        exemption_for(exemptions, rule_id, path, test) is None <==> forall|i: int|
            0 <= i < exemptions.len() ==> !is_exemption_of(
                #[trigger] exemptions[i],
                rule_id,
                path,
                test,
            ),
        forall|i: int|
            0 <= i < exemptions.len() && is_exemption_of(
                #[trigger] exemptions[i],
                rule_id,
                path,
                test,
            ) && (forall|j: int|
                0 <= j < i ==> !is_exemption_of(#[trigger] exemptions[j], rule_id, path, test))
                ==> exemption_for(exemptions, rule_id, path, test) == Some(exemptions[i]),
{
    let p = |e: TestExemptionView|
        e.rule_id == rule_id && normalized_path(e.path) == normalized_path(path) && e.test == test;
    assert forall|i: int|
        0 <= i < exemptions.len() && is_exemption_of(
            #[trigger] exemptions[i],
            rule_id,
            path,
            test,
        ) && (forall|j: int|
            0 <= j < i ==> !is_exemption_of(
                #[trigger] exemptions[j],
                rule_id,
                path,
                test,
            )) implies exemption_for(exemptions, rule_id, path, test) == Some(exemptions[i]) by {
        assert forall|j: int| 0 <= j < i implies !p(#[trigger] exemptions[j]) by {
            assert(!is_exemption_of(exemptions[j], rule_id, path, test));
        }
        first_where_at(exemptions, p, i);
    }
    if forall|i: int|
        0 <= i < exemptions.len() ==> !is_exemption_of(
            #[trigger] exemptions[i],
            rule_id,
            path,
            test,
        ) {
        assert forall|i: int| 0 <= i < exemptions.len() implies !p(#[trigger] exemptions[i]) by {
            assert(!is_exemption_of(exemptions[i], rule_id, path, test));
        }
        first_where_none(exemptions, p);
    } else {
        let i = choose|i: int|
            0 <= i < exemptions.len() && is_exemption_of(
                #[trigger] exemptions[i],
                rule_id,
                path,
                test,
            );
        some_is_first(exemptions, p, i);
    }
}

/// Whether an exemption lets off a rule in a test of a file.
pub open spec fn is_exemption_of(
    exemption: TestExemptionView,
    rule_id: Seq<char>,
    path: Seq<char>,
    test: Seq<char>,
) -> bool {
    exemption.rule_id == rule_id && exemption.test == test && normalized_path(exemption.path)
        == normalized_path(path)
}

proof fn some_is_first<A>(s: Seq<A>, p: spec_fn(A) -> bool, i: int)
    requires
        0 <= i < s.len(),
        p(s[i]),
    ensures
        first_where(s, p) is Some,
    decreases s.len(),
{
    if !p(s[0]) {
        assert(s.skip(1)[i - 1] == s[i]);
        some_is_first(s.skip(1), p, i - 1);
    }
}

/// A path is the same file with a `./` before it and with its slashes turned; a normalised
/// path has neither backslashes nor a `./` at its start, and one that has neither is left
/// as it is.
pub proof fn normalized_paths(path: Seq<char>)
    ensures
        normalized_path("./"@ + path) == normalized_path(path),
        normalized_path(with_char(path, '\\', '/')) == normalized_path(path),
        !normalized_path(path).contains('\\'),
        !"./"@.is_prefix_of(normalized_path(path)),
        !path.contains('\\') && !"./"@.is_prefix_of(path) ==> normalized_path(path) == path,
{
    reveal_strlit("./");
    let dotted = "./"@ + path;
    let slashed = with_char(path, '\\', '/');
    assert(with_char(dotted, '\\', '/') =~= "./"@ + slashed);
    prefixes_and_suffixes("./"@ + slashed, "./"@);
    assert(("./"@ + slashed).subrange(0, 2) =~= "./"@);
    assert(("./"@ + slashed).skip(2) =~= slashed);
    assert(with_char(slashed, '\\', '/') =~= slashed);
    assert forall|i: int| 0 <= i < slashed.len() implies #[trigger] slashed[i] != '\\' by {}
    leading_is_gone(slashed, "./"@);
    if normalized_path(path).contains('\\') {
        let i = normalized_path(path).index_of('\\');
        let n = slashed.len() - normalized_path(path).len();
        assert(normalized_path(path)[i] == slashed[n + i]);
    }
    prefixes_and_suffixes(path, "./"@);
    if !path.contains('\\') {
        assert(slashed =~= path) by {
            assert forall|i: int| 0 <= i < path.len() implies path[i] != '\\' by {
                assert(path.contains(path[i]));
            }
        }
    }
}

proof fn leading_is_gone(s: Seq<char>, pattern: Seq<char>)
    requires
        pattern.len() > 0,
    ensures
        !pattern.is_prefix_of(without_leading(s, pattern)),
        without_leading(s, pattern).is_suffix_of(s),
    decreases s.len(),
{
    prefixes_and_suffixes(s, pattern);
    if pattern.is_prefix_of(s) {
        let rest = s.skip(pattern.len() as int);
        leading_is_gone(rest, pattern);
        let r = without_leading(s, pattern);
        assert(rest.subrange(rest.len() - r.len(), rest.len() as int) =~= s.subrange(
            s.len() - r.len(),
            s.len() as int,
        ));
    } else {
        assert(s.subrange(0, s.len() as int) =~= s);
    }
}

/// A path is safe exactly where, its backslashes read as slashes, it is not blank, does not
/// start with a slash and none of its pieces is `..`.
pub proof fn safe_paths_stay_below(path: Seq<char>)
    ensures
        ({
            let slashed = with_char(path, '\\', '/');
            safe_relative_path(path) <==> {
                &&& exists|i: int|
                    0 <= i < slashed.len() && !is_whitespace(#[trigger] slashed[i])
                &&& slashed.len() > 0 ==> slashed[0] != '/'
                &&& forall|k: int|
                    0 <= k < pieces(slashed, "/"@).len() ==> #[trigger] pieces(slashed, "/"@)[k]
                        != ".."@
            }
        }),
{
    let slashed = with_char(path, '\\', '/');
    reveal_strlit("/");
    prefixes_and_suffixes(slashed, "/"@);
    if slashed.len() > 0 && slashed[0] == '/' {
        assert(slashed.subrange(0, 1) =~= "/"@);
    }
    if "/"@.is_prefix_of(slashed) {
        assert(slashed.subrange(0, 1)[0] == '/');
    }
    let all = pieces(slashed, "/"@);
    if all.contains(".."@) {
        assert(all[all.index_of(".."@)] == ".."@);
    }
}

/// A policy is accepted exactly where it names source roots, all of them safe, asks for at
/// least one line, and each exemption is complete, exact, safe and the only one for its
/// finding.
pub proof fn accepted_policies(policy: TestPolicyView)
    ensures
        policy_fault(policy) is None <==> {
            &&& policy.source_roots.len() > 0
            &&& forall|i: int|
                0 <= i < policy.source_roots.len() ==> safe_relative_path(
                    #[trigger] policy.source_roots[i],
                )
            &&& policy.aaa_min_lines > 0
            &&& forall|i: int|
                0 <= i < policy.exemptions.len() ==> is_proper(#[trigger] policy.exemptions[i])
            &&& forall|i: int, j: int|
                0 <= i < j < policy.exemptions.len() ==> !is_exemption_of(
                    #[trigger] policy.exemptions[i],
                    (#[trigger] policy.exemptions[j]).rule_id,
                    policy.exemptions[j].path,
                    policy.exemptions[j].test,
                )
        },
{
    faults_from(policy.exemptions, 0);
    let all = policy.exemptions;
    if first_exemption_fault(all, 0) is None {
        assert forall|i: int| 0 <= i < all.len() implies is_proper(#[trigger] all[i]) by {
            assert(exemption_fault(all, i) is None);
        }
        assert forall|i: int, j: int| 0 <= i < j < all.len() implies !is_exemption_of(
            #[trigger] all[i],
            (#[trigger] all[j]).rule_id,
            all[j].path,
            all[j].test,
        ) by {
            assert(exemption_fault(all, j) is None);
            assert(!same_exemption(all[i], all[j]));
        }
    } else {
        let i = choose|i: int| 0 <= i < all.len() && #[trigger] exemption_fault(all, i) is Some;
        if is_proper(all[i]) {
            let j = choose|j: int| 0 <= j < i && same_exemption(#[trigger] all[j], all[i]);
            assert(is_exemption_of(all[j], all[i].rule_id, all[i].path, all[i].test));
        }
    }
}

/// Whether a text holds more than whitespace.
pub open spec fn says_something(s: Seq<char>) -> bool {
    exists|i: int| 0 <= i < s.len() && !is_whitespace(#[trigger] s[i])
}

/// Whether a text holds a character that stands for others.
pub open spec fn stands_for_others(s: Seq<char>) -> bool {
    s.contains('*') || s.contains('?')
}

/// Whether an exemption says what it lets off and why, exactly and within the repository.
pub open spec fn is_proper(e: TestExemptionView) -> bool {
    &&& says_something(e.rule_id)
    &&& says_something(e.path)
    &&& says_something(e.test)
    &&& says_something(e.reason)
    &&& !stands_for_others(e.rule_id)
    &&& !stands_for_others(e.path)
    &&& !stands_for_others(e.test)
    &&& safe_relative_path(e.path)
}

proof fn faults_from(exemptions: Seq<TestExemptionView>, from: int)
    requires
        0 <= from,
    ensures
        first_exemption_fault(exemptions, from) is None <==> forall|i: int|
            from <= i < exemptions.len() ==> #[trigger] exemption_fault(exemptions, i) is None,
    decreases exemptions.len() - from,
{
    if from < exemptions.len() {
        faults_from(exemptions, from + 1);
        if exemption_fault(exemptions, from) is None {
            assert forall|i: int|
                first_exemption_fault(exemptions, from) is None && from <= i
                    < exemptions.len() implies #[trigger] exemption_fault(
                exemptions,
                i,
            ) is None by {}
        }
    }
}

} // verus!
