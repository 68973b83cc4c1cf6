//! What the checks of a repository find, told by what they are given.

use vstd::prelude::*;

use super::benchmarks::{
    benchmarks_of, document_errors, is_package_of, phrase_errors, registered_in, runs,
    workflow_errors, MetadataPackageView, MetadataTargetView,
};
use super::docs::{
    excludes, heading_slug, headings_of, is_heading, is_local, is_under, link_errors, links_of,
    local_links_of, lower, presence_errors, searches, slug_chars, slug_of, text_errors,
    DocsCheckView, FoundLinkView, LinkView, NoteView,
};
use super::modules::{after_lines, failure_of, is_module, warning_of};
use super::quoted;
use super::watchdog::{named_test, step_of, stop_code, wanted_tests, Step};
use super::ModuleSizeConfig;
use crate::names::{listed, listed_exists};
use crate::patterns::{pattern_fault, pattern_matches, MatchView};
use crate::seqs::{any, flat, in_keep, keep, kept, mapped, views};
use crate::text::{contains_text, joined, lines_of, pieces, strip_end, strip_start, trimmed};
use crate::text_laws::{
    contained_is_occurring, occurs_in, prefixes_and_suffixes, stands_at, stripped_at_the_end,
};
use crate::validate_tests::laws::in_flat;

verus! {

/// What a group of a match has, nothing counting as an empty text.
pub open spec fn group_text(found: MatchView, index: int) -> Seq<char> {
    if 0 <= index < found.groups.len() {
        match found.groups[index] {
            Some(text) => text,
            None => seq![],
        }
    } else {
        seq![]
    }
}

/// What a group of a match has.
pub open spec fn group(found: MatchView, index: int) -> Option<Seq<char>> {
    if 0 <= index < found.groups.len() {
        found.groups[index]
    } else {
        None
    }
}

pub(crate) proof fn same_group(found: MatchView, index: int)
    ensures
        group_text(found, index) == found.group_text(index),
        group(found, index) == found.group(index),
{
    reveal_strlit("");
    assert(""@ =~= seq![]);
}

/// The matches of links in a text.
pub open spec fn link_matches(text: Seq<char>) -> Seq<MatchView> {
    pattern_matches("\\[[^\\]]*\\]\\(([^)#\\s]*)(?:#([^)]*))?\\)"@, text)
}

/// Whether a link need not lead to a place in the repository.
pub open spec fn leads_away(target: Seq<char>) -> bool {
    target.len() == 0 || occurs_in(target, "://"@) || "mailto:"@.is_prefix_of(target)
}

/// The links of a document that are handed out to be checked are exactly those found in its
/// text whose target is not empty, holds no `://` and does not start with `mailto:`.
pub proof fn links_to_check(text: Seq<char>, link: LinkView)
    requires
        pattern_fault("\\[[^\\]]*\\]\\(([^)#\\s]*)(?:#([^)]*))?\\)"@) is None,
    ensures
        local_links_of(text).contains(link) <==> !leads_away(link.target) && exists|k: int|
            0 <= k < link_matches(text).len() && link.target == group_text(
                #[trigger] link_matches(text)[k],
                1,
            ) && link.anchor == group(link_matches(text)[k], 2),
{
    let p = |link: LinkView| is_local(link);
    let all = links_of(text);
    let found = link_matches(text);
    in_keep(all, p, link);
    contained_is_occurring(link.target, "://"@);
    prefixes_and_suffixes(link.target, "mailto:"@);
    assert forall|k: int| 0 <= k < found.len() implies #[trigger] all[k] == (LinkView {
        target: group_text(found[k], 1),
        anchor: group(found[k], 2),
    }) by {
        same_group(found[k], 1);
        same_group(found[k], 2);
    }
    if all.contains(link) {
        let k = all.index_of(link);
        assert(found[k] == found[k]);
        assert(all[k] == link);
    }
    if exists|k: int|
        0 <= k < found.len() && link.target == group_text(#[trigger] found[k], 1) && link.anchor
            == group(found[k], 2) {
        let k = choose|k: int|
            0 <= k < found.len() && link.target == group_text(#[trigger] found[k], 1)
                && link.anchor == group(found[k], 2);
        assert(all[k] == link);
    }
}

/// No link is lost: each that is found in a text is handed out to be checked or leads away.
pub proof fn no_link_is_lost(text: Seq<char>, k: int)
    requires
        pattern_fault("\\[[^\\]]*\\]\\(([^)#\\s]*)(?:#([^)]*))?\\)"@) is None,
        0 <= k < link_matches(text).len(),
    ensures
        leads_away(group_text(link_matches(text)[k], 1)) || local_links_of(text).contains(
            LinkView {
                target: group_text(link_matches(text)[k], 1),
                anchor: group(link_matches(text)[k], 2),
            },
        ),
{
    let link = LinkView {
        target: group_text(link_matches(text)[k], 1),
        anchor: group(link_matches(text)[k], 2),
    };
    links_to_check(text, link);
    assert(link_matches(text)[k] == link_matches(text)[k]);
}

/// What is wrong with the documents that there are: each required one that is missing and
/// each forbidden one that is there, and nothing else.
pub proof fn missing_and_forbidden_documents(
    required: Seq<Seq<char>>,
    forbidden: Seq<Seq<char>>,
    names: Set<Seq<char>>,
    error: Seq<char>,
)
    ensures
        presence_errors(required, forbidden, names).contains(error) <==> {
            ||| exists|k: int|
                0 <= k < required.len() && !names.contains(#[trigger] required[k]) && error
                    == "missing required document: "@ + required[k]
            ||| exists|k: int|
                0 <= k < forbidden.len() && names.contains(#[trigger] forbidden[k]) && error
                    == "forbidden document is present: "@ + forbidden[k]
        },
{
    let p = |path: Seq<char>| !names.contains(path);
    let f = |path: Seq<char>| "missing required document: "@ + path;
    let q = |path: Seq<char>| names.contains(path);
    let g = |path: Seq<char>| "forbidden document is present: "@ + path;
    described(required, p, f, error);
    described(forbidden, q, g, error);
    in_concat(mapped(keep(required, p), f), mapped(keep(forbidden, q), g), error);
    if described_by(required, p, f, error) {
        let k = choose|k: int|
            0 <= k < required.len() && p(#[trigger] required[k]) && f(required[k]) == error;
        assert(!names.contains(required[k]));
    }
    if described_by(forbidden, q, g, error) {
        let k = choose|k: int|
            0 <= k < forbidden.len() && q(#[trigger] forbidden[k]) && g(forbidden[k]) == error;
        assert(names.contains(forbidden[k]));
    }
    if exists|k: int|
        0 <= k < required.len() && !names.contains(#[trigger] required[k]) && error
            == "missing required document: "@ + required[k] {
        let k = choose|k: int|
            0 <= k < required.len() && !names.contains(#[trigger] required[k]) && error
                == "missing required document: "@ + required[k];
        assert(p(required[k]) && f(required[k]) == error);
    }
    if exists|k: int|
        0 <= k < forbidden.len() && names.contains(#[trigger] forbidden[k]) && error
            == "forbidden document is present: "@ + forbidden[k] {
        let k = choose|k: int|
            0 <= k < forbidden.len() && names.contains(#[trigger] forbidden[k]) && error
                == "forbidden document is present: "@ + forbidden[k];
        assert(q(forbidden[k]) && g(forbidden[k]) == error);
    }
}

spec fn described_by<A, B>(
    s: Seq<A>,
    p: spec_fn(A) -> bool,
    f: spec_fn(A) -> B,
    y: B,
) -> bool {
    exists|k: int| 0 <= k < s.len() && p(#[trigger] s[k]) && f(s[k]) == y
}

proof fn described<A, B>(s: Seq<A>, p: spec_fn(A) -> bool, f: spec_fn(A) -> B, y: B)
    ensures
        mapped(keep(s, p), f).contains(y) == described_by(s, p, f, y),
{
    let some = keep(s, p);
    let all = mapped(some, f);
    kept(s, p);
    if all.contains(y) {
        let i = all.index_of(y);
        assert(p(some[i]));
        let k = s.index_of(some[i]);
        assert(p(s[k]) && f(s[k]) == y);
    }
    if described_by(s, p, f, y) {
        let k = choose|k: int| 0 <= k < s.len() && p(#[trigger] s[k]) && f(s[k]) == y;
        assert(s.contains(s[k]));
        in_keep(s, p, s[k]);
        let i = some.index_of(s[k]);
        assert(all[i] == y);
    }
}

proof fn in_concat<A>(a: Seq<A>, b: Seq<A>, y: A)
    ensures
        (a + b).contains(y) == (a.contains(y) || b.contains(y)),
{
    let all = a + b;
    if a.contains(y) {
        assert(all[a.index_of(y)] == y);
    }
    if b.contains(y) {
        assert(all[a.len() + b.index_of(y)] == y);
    }
    if all.contains(y) {
        let i = all.index_of(y);
        if i < a.len() {
            assert(a[i] == y);
        } else {
            assert(b[i - a.len()] == y);
        }
    }
}

/// What is wrong with the text of a document: each forbidden text that stands in it, and
/// nothing else.
pub proof fn forbidden_texts(
    name: Seq<char>,
    text: Seq<char>,
    forbidden: Seq<Seq<char>>,
    error: Seq<char>,
)
    ensures
        text_errors(name, text, forbidden).contains(error) <==> exists|k: int|
            0 <= k < forbidden.len() && occurs_in(text, #[trigger] forbidden[k]) && error == name
                + ": forbidden documentation text "@ + quoted(forbidden[k]),
{
    let p = |marker: Seq<char>| contains_text(text, marker);
    let f = |marker: Seq<char>| name + ": forbidden documentation text "@ + quoted(marker);
    described(forbidden, p, f, error);
    assert forall|k: int| 0 <= k < forbidden.len() implies p(#[trigger] forbidden[k]) == occurs_in(
        text,
        forbidden[k],
    ) by {
        contained_is_occurring(text, forbidden[k]);
    }
    if described_by(forbidden, p, f, error) {
        let k = choose|k: int|
            0 <= k < forbidden.len() && p(#[trigger] forbidden[k]) && f(forbidden[k]) == error;
        assert(occurs_in(text, forbidden[k]));
    }
    if exists|k: int|
        0 <= k < forbidden.len() && occurs_in(text, #[trigger] forbidden[k]) && error == name
            + ": forbidden documentation text "@ + quoted(forbidden[k]) {
        let k = choose|k: int|
            0 <= k < forbidden.len() && occurs_in(text, #[trigger] forbidden[k]) && error == name
                + ": forbidden documentation text "@ + quoted(forbidden[k]);
        assert(p(forbidden[k]) && f(forbidden[k]) == error);
    }
}

/// A link is broken exactly where nothing stands where it leads; its anchor is broken
/// exactly where it has one and the document that it leads to is not known or has no heading
/// of that name. Nothing else is wrong with a link.
pub proof fn broken_links_and_anchors(
    link: FoundLinkView,
    headings: Map<Seq<char>, Set<Seq<char>>>,
    error: Seq<char>,
)
    ensures
        link_errors(link, headings).contains(error) <==> {
            ||| !link.found && error == link.name + ": broken local link "@ + link.link.target
            ||| link.link.anchor matches Some(anchor) && error == link.name + ": broken anchor "@
                + link.link.target + "#"@ + anchor && !(headings.contains_key(link.target_name)
                && headings[link.target_name].contains(slug_of(anchor)))
        },
        link.found && link.link.anchor is None ==> link_errors(link, headings).len() == 0,
{
    let a: Seq<Seq<char>> = if link.found {
        seq![]
    } else {
        seq![link.name + ": broken local link "@ + link.link.target]
    };
    let b: Seq<Seq<char>> = match link.link.anchor {
        Some(anchor) => if headings.contains_key(link.target_name)
            && headings[link.target_name].contains(slug_of(anchor)) {
            seq![]
        } else {
            seq![link.name + ": broken anchor "@ + link.link.target + "#"@ + anchor]
        },
        None => seq![],
    };
    assert(link_errors(link, headings) == a + b);
    in_concat(a, b, error);
    if !link.found {
        assert(a[0] == link.name + ": broken local link "@ + link.link.target);
    }
    if b.len() > 0 {
        assert(b.contains(b[0]));
    }
}

/// What a check tells at the end: the errors it has noted, and what is wrong with each link
/// against the headings of all documents.
pub proof fn errors_are_those_of_the_notes(check: DocsCheckView, error: Seq<char>)
    ensures
        check.errors().contains(error) <==> exists|k: int|
            0 <= k < check.notes.len() && match #[trigger] check.notes[k] {
                NoteView::Error(own) => own == error,
                NoteView::Link(link) => link_errors(link, check.headings).contains(error),
            },
{
    let f = |note: NoteView| super::docs::note_errors(note, check.headings);
    in_flat(check.notes, f, error);
    assert forall|k: int| 0 <= k < check.notes.len() implies f(#[trigger] check.notes[k]).contains(
        error,
    ) == (match check.notes[k] {
        NoteView::Error(own) => own == error,
        NoteView::Link(link) => link_errors(link, check.headings).contains(error),
    }) by {
        match check.notes[k] {
            NoteView::Error(own) => {
                assert(seq![own][0] == own);
            },
            NoteView::Link(_) => {},
        }
    }
    if check.errors().contains(error) {
        let k = choose|k: int|
            0 <= k < check.notes.len() && f(#[trigger] check.notes[k]).contains(error);
        assert(f(check.notes[k]).contains(error));
    }
    if exists|k: int|
        0 <= k < check.notes.len() && match #[trigger] check.notes[k] {
            NoteView::Error(own) => own == error,
            NoteView::Link(link) => link_errors(link, check.headings).contains(error),
        } {
        let k = choose|k: int|
            0 <= k < check.notes.len() && match #[trigger] check.notes[k] {
                NoteView::Error(own) => own == error,
                NoteView::Link(link) => link_errors(link, check.headings).contains(error),
            };
        assert(f(check.notes[k]).contains(error));
    }
}

/// A document read later than others adds its headings, and a link adds itself; neither
/// takes anything away.
pub proof fn notes_only_grow(
    check: DocsCheckView,
    name: Seq<char>,
    text: Seq<char>,
    forbidden: Seq<Seq<char>>,
    link: FoundLinkView,
)
    ensures
        check.notes.is_prefix_of(check.with_document(name, text, forbidden).notes),
        check.with_document(name, text, forbidden).notes.len() == check.notes.len() + text_errors(
            name,
            text,
            forbidden,
        ).len(),
        check.with_document(name, text, forbidden).headings == check.headings.insert(
            name,
            headings_of(text),
        ),
        check.with_link(link).notes == check.notes.push(NoteView::Link(link)),
        check.with_link(link).headings == check.headings,
{
    let after = check.with_document(name, text, forbidden).notes;
    assert(check.notes =~= after.subrange(0, check.notes.len() as int));
}

/// The anchors of a document are those of the lines that start with a hash which another
/// hash or a space follows.
pub proof fn headings_are_lines_with_hashes(text: Seq<char>, id: Seq<char>)
    ensures
        headings_of(text).contains(id) <==> exists|k: int|
            0 <= k < lines_of(text).len() && ("##"@.is_prefix_of(#[trigger] lines_of(text)[k])
                || "# "@.is_prefix_of(lines_of(text)[k])) && id == slug_of(
                trimmed(strip_end(strip_start(lines_of(text)[k], '#'), '#')),
            ),
{
    reveal_strlit("##");
    reveal_strlit("# ");
    let all = lines_of(text);
    let p = |line: Seq<char>| is_heading(line);
    let f = |line: Seq<char>| heading_slug(line);
    described(all, p, f, id);
    assert forall|k: int| 0 <= k < all.len() implies p(#[trigger] all[k]) == (
    "##"@.is_prefix_of(all[k]) || "# "@.is_prefix_of(all[k])) by {
        let line = all[k];
        if is_heading(line) {
            if line[1] == '#' {
                assert(line.subrange(0, 2) =~= "##"@);
            } else {
                assert(line.subrange(0, 2) =~= "# "@);
            }
        }
        if "##"@.is_prefix_of(line) {
            assert(line.subrange(0, 2)[0] == '#' && line.subrange(0, 2)[1] == '#');
        }
        if "# "@.is_prefix_of(line) {
            assert(line.subrange(0, 2)[0] == '#' && line.subrange(0, 2)[1] == ' ');
        }
    }
    if described_by(all, p, f, id) {
        let k = choose|k: int| 0 <= k < all.len() && p(#[trigger] all[k]) && f(all[k]) == id;
        assert(p(all[k]));
    }
    if exists|k: int|
        0 <= k < all.len() && ("##"@.is_prefix_of(#[trigger] all[k]) || "# "@.is_prefix_of(all[k]))
            && id == slug_of(trimmed(strip_end(strip_start(all[k], '#'), '#'))) {
        let k = choose|k: int|
            0 <= k < all.len() && ("##"@.is_prefix_of(#[trigger] all[k]) || "# "@.is_prefix_of(
                all[k],
            )) && id == slug_of(trimmed(strip_end(strip_start(all[k], '#'), '#')));
        assert(p(all[k]) && f(all[k]) == id);
    }
    assert(mapped(keep(all, p), f).to_set().contains(id) == mapped(keep(all, p), f).contains(id));
}

/// Whether a character can stand in an anchor, once it is in lower case.
pub open spec fn is_anchor_char(c: char) -> bool {
    'a' <= c <= 'z' || 'A' <= c <= 'Z' || '0' <= c <= '9' || c == '-' || c == ' '
}

/// A character that cannot stand in an anchor makes no difference to it.
pub proof fn other_characters_make_no_anchor(a: Seq<char>, c: char, b: Seq<char>)
    requires
        !is_anchor_char(c),
    ensures
        slug_of(a + seq![c] + b) == slug_of(a + b),
{
    slug_chars_of_concat(a + seq![c], b);
    slug_chars_of_concat(a, seq![c]);
    slug_chars_of_concat(a, b);
    one_slug_char(c);
    assert(slug_chars(a) + seq![] =~= slug_chars(a));
}

/// Upper and lower case letters give the same anchor.
pub proof fn case_makes_no_anchor(a: Seq<char>, c: char, d: char, b: Seq<char>)
    requires
        'A' <= c <= 'Z',
        d as int == c as int + 32,
    ensures
        slug_of(a + seq![c] + b) == slug_of(a + seq![d] + b),
{
    slug_chars_of_concat(a + seq![c], b);
    slug_chars_of_concat(a, seq![c]);
    slug_chars_of_concat(a + seq![d], b);
    slug_chars_of_concat(a, seq![d]);
    one_slug_char(c);
    one_slug_char(d);
}

/// A text of lower case letters, digits and hyphens is its own anchor.
pub proof fn anchors_stay_as_they_are(s: Seq<char>)
    requires
        s.len() > 0,
        forall|i: int| 0 <= i < s.len() ==> is_anchor_char(#[trigger] s[i]) && !('A' <= s[i] <= 'Z')
            && s[i] != ' ',
    ensures
        slug_of(s) == s,
{
    plain_slug_chars(s);
    reveal_strlit(" ");
    crate::text::find_from_found(s, " "@, 0);
    match crate::text::find_from(s, " "@, 0) {
        Some(i) => {
            assert(s.subrange(i, i + 1)[0] == s[i]);
            assert(" "@[0] == ' ');
        },
        None => {},
    }
    assert(pieces(s, " "@) =~= seq![s]);
    let p = |word: Seq<char>| word.len() > 0;
    assert(keep(seq![s], p) =~= seq![s]) by {
        assert(seq![s].drop_last() =~= seq![]);
        assert(keep(seq![s].drop_last(), p) =~= seq![]);
        assert(seq![s].last() == s);
    }
    assert(joined(seq![s], "-"@) == s);
}

proof fn plain_slug_chars(s: Seq<char>)
    requires
        forall|i: int| 0 <= i < s.len() ==> is_anchor_char(#[trigger] s[i]) && !('A' <= s[i]
            <= 'Z'),
    ensures
        slug_chars(s) == s,
    decreases s.len(),
{
    if s.len() > 0 {
        let rest = s.drop_last();
        assert forall|i: int| 0 <= i < rest.len() implies is_anchor_char(#[trigger] rest[i]) && !(
        'A' <= rest[i] <= 'Z') by {
            assert(rest[i] == s[i]);
        }
        plain_slug_chars(rest);
        assert(is_anchor_char(s[s.len() - 1]));
        slug_chars_of_concat(rest, seq![s.last()]);
        one_slug_char(s.last());
        assert(s =~= rest + seq![s.last()]);
    } else {
        assert(slug_chars(s) =~= s);
    }
}

proof fn one_slug_char(c: char)
    ensures
        slug_chars(seq![c]) == if is_anchor_char(c) {
            seq![lower(c)]
        } else {
            seq![]
        },
        'A' <= c <= 'Z' ==> lower(c) as int == c as int + 32,
        !('A' <= c <= 'Z') ==> lower(c) == c,
{
    let all = mapped(seq![c], |c: char| lower(c));
    let p = |c: char| super::docs::is_slug_char(c);
    assert(all =~= seq![lower(c)]);
    assert(all.drop_last() =~= seq![]);
    assert(keep(all.drop_last(), p) =~= seq![]);
    assert(slug_chars(seq![c]) == keep(all, p));
    if 'A' <= c <= 'Z' {
        let n = (c as u32 + 32) as u8;
        assert(n as int == c as int + 32);
        assert(lower(c) as int == n as int);
    }
    if p(lower(c)) {
        assert(keep(all, p) =~= seq![lower(c)]);
    } else {
        assert(keep(all, p) =~= seq![]);
    }
}

proof fn slug_chars_of_concat(a: Seq<char>, b: Seq<char>)
    ensures
        slug_chars(a + b) == slug_chars(a) + slug_chars(b),
{
    let f = |c: char| lower(c);
    let p = |c: char| super::docs::is_slug_char(c);
    assert(mapped(a + b, f) =~= mapped(a, f) + mapped(b, f));
    keep_of_concat(mapped(a, f), mapped(b, f), p);
}

proof fn keep_of_concat<A>(a: Seq<A>, b: Seq<A>, p: spec_fn(A) -> bool)
    ensures
        keep(a + b, p) == keep(a, p) + keep(b, p),
    decreases b.len(),
{
    if b.len() == 0 {
        assert(a + b =~= a);
        assert(keep(a, p) + keep(b, p) =~= keep(a, p));
    } else {
        keep_of_concat(a, b.drop_last(), p);
        assert((a + b).drop_last() =~= a + b.drop_last());
        assert(keep(a + b, p) =~= keep(a, p) + keep(b, p));
    }
}

/// Whether a path is that of a directory or lies below it, slashes at the end of the
/// directory not counting.
pub open spec fn lies_in(name: Seq<char>, directory: Seq<char>, slashes: nat) -> bool {
    &&& slashes <= directory.len()
    &&& forall|i: int|
        directory.len() - slashes <= i < directory.len() ==> #[trigger] directory[i] == '/'
    &&& directory.len() > slashes ==> directory[directory.len() - slashes - 1] != '/'
    &&& {
        let bare = directory.take(directory.len() - slashes);
        name == bare || (bare + seq!['/']).is_prefix_of(name)
    }
}

/// A path is excluded exactly where it is one of the excluded ones or lies below one.
pub proof fn exclusion_is_by_directories(excluded: Seq<Seq<char>>, name: Seq<char>)
    ensures
        excludes(excluded, name) <==> exists|k: int, slashes: nat|
            0 <= k < excluded.len() && #[trigger] lies_in(name, excluded[k], slashes),
{
    let p = |prefix: Seq<char>| is_under(name, prefix);
    if excludes(excluded, name) {
        let k = choose|k: int| 0 <= k < excluded.len() && p(#[trigger] excluded[k]);
        under_is_lying_in(name, excluded[k]);
        let n = (excluded[k].len() - strip_end(excluded[k], '/').len()) as nat;
        assert(lies_in(name, excluded[k], n));
    }
    if exists|k: int, slashes: nat|
        0 <= k < excluded.len() && #[trigger] lies_in(name, excluded[k], slashes) {
        let (k, n) = choose|k: int, slashes: nat|
            0 <= k < excluded.len() && #[trigger] lies_in(name, excluded[k], slashes);
        let directory = excluded[k];
        under_is_lying_in(name, directory);
        stripped_at_the_end(directory, '/');
        let bare = strip_end(directory, '/');
        if n != directory.len() - bare.len() {
            if directory.len() - n > bare.len() {
                assert(directory[directory.len() - n - 1] == '/');
            } else {
                assert(bare.last() == directory[bare.len() - 1]);
                assert(directory[bare.len() - 1] == '/');
            }
        }
        assert(p(excluded[k]));
    }
}

proof fn under_is_lying_in(name: Seq<char>, directory: Seq<char>)
    ensures
        strip_end(directory, '/').len() <= directory.len(),
        is_under(name, directory) == lies_in(
            name,
            directory,
            (directory.len() - strip_end(directory, '/').len()) as nat,
        ),
{
    stripped_at_the_end(directory, '/');
    let bare = strip_end(directory, '/');
    reveal_strlit("/");
    assert("/"@ =~= seq!['/']);
    prefixes_and_suffixes(name, bare + "/"@);
    assert(bare =~= directory.take(bare.len() as int));
    if bare.len() > 0 {
        assert(bare.last() == directory[bare.len() - 1]);
    }
}

/// The search for documents leaves out, below the root, what is called `target`, what is
/// hidden and what is excluded, and nothing else.
pub proof fn searched_places(
    depth: usize,
    file_name: Seq<char>,
    name: Seq<char>,
    excluded: Seq<Seq<char>>,
)
    ensures
        searches(0, file_name, name, excluded),
        depth > 0 ==> (searches(depth, file_name, name, excluded) <==> file_name != "target"@ && !(
        file_name.len() > 0 && file_name[0] == '.') && !excludes(excluded, name)),
{
    reveal_strlit(".");
    prefixes_and_suffixes(file_name, "."@);
    if file_name.len() > 0 && file_name[0] == '.' {
        assert(file_name.subrange(0, 1) =~= "."@);
    }
    if "."@.is_prefix_of(file_name) {
        assert(file_name.subrange(0, 1)[0] == '.');
    }
}

/// The names of a finite set can be listed.
pub(crate) proof fn finite_names_are_listed(names: Set<Seq<char>>)
    requires
        names.finite(),
    ensures
        listed(names).to_set() == names,
        crate::names::ascending(listed(names)),
{
    names.lemma_to_seq_to_set_id();
    listed_exists(names.to_seq());
}

/// Whether the run of a benchmark in a workflow runs a benchmark: it names it, or it names
/// the start of its name with an asterisk behind.
pub open spec fn executes(run: Seq<char>, benchmark: Seq<char>, asterisks: nat) -> bool {
    if run.contains('*') {
        ||| run == benchmark
        ||| asterisks <= run.len() && (forall|i: int|
            run.len() - asterisks <= i < run.len() ==> #[trigger] run[i] == '*') && (run.len()
            > asterisks ==> run[run.len() - asterisks - 1] != '*') && run.take(
            run.len() - asterisks,
        ).is_prefix_of(benchmark)
    } else {
        run == benchmark
    }
}

proof fn running_is_executing(found: MatchView, benchmark: Seq<char>)
    ensures
        runs(found, benchmark) <==> exists|n: nat| #[trigger]
            executes(group_text(found, 1), benchmark, n),
{
    same_group(found, 1);
    let run = group_text(found, 1);
    reveal_strlit("*");
    assert("*"@ =~= seq!['*']);
    contained_is_occurring(run, "*"@);
    if run.contains('*') {
        let i = run.index_of('*');
        assert(stands_at(run, "*"@, i));
    }
    if occurs_in(run, "*"@) {
        let i = choose|i: int| #[trigger] stands_at(run, "*"@, i);
        assert(run[i + 0] == "*"@[0]);
        assert(run[i] == '*');
    }
    let bare = strip_end(run, '*');
    stripped_at_the_end(run, '*');
    prefixes_and_suffixes(benchmark, bare);
    let n = (run.len() - bare.len()) as nat;
    assert(bare =~= run.take(bare.len() as int));
    if bare.len() > 0 {
        assert(bare.last() == run[bare.len() - 1]);
    }
    if runs(found, benchmark) {
        assert(executes(run, benchmark, n));
    }
    if exists|n: nat| #[trigger] executes(run, benchmark, n) {
        let m = choose|n: nat| #[trigger] executes(run, benchmark, n);
        if run != benchmark && m != n {
            if run.len() - m > bare.len() {
                assert(run[run.len() - m - 1] == '*');
            } else {
                assert(run[bare.len() - 1] == '*');
            }
        }
    }
}

/// Whether some run in a workflow runs a benchmark.
pub open spec fn is_executed(workflow: Seq<char>, pattern: Seq<char>, benchmark: Seq<char>) -> bool {
    exists|k: int, n: nat|
        0 <= k < pattern_matches(pattern, workflow).len() && #[trigger] executes(
            group_text(pattern_matches(pattern, workflow)[k], 1),
            benchmark,
            n,
        )
}

/// What is wrong with a workflow: each registered benchmark that no run in it runs, a
/// missing manual trigger, and a trigger by pull requests; and nothing else.
pub proof fn workflow_runs_every_benchmark(
    workflow: Seq<char>,
    registered: Set<Seq<char>>,
    pattern: Seq<char>,
    error: Seq<char>,
)
    requires
        registered.finite(),
    ensures
        workflow_errors(workflow, registered, pattern).contains(error) <==> {
            ||| exists|benchmark: Seq<char>| #[trigger]
                registered.contains(benchmark) && !is_executed(workflow, pattern, benchmark)
                    && error == "benchmark workflow does not execute "@ + benchmark
            ||| !occurs_in(workflow, "workflow_dispatch:"@) && error
                == "benchmark workflow has no manual trigger"@
            ||| occurs_in(workflow, "pull_request:"@) && error
                == "benchmark workflow must not be a pull-request gate"@
        },
{
    let names = listed(registered);
    let found = pattern_matches(pattern, workflow);
    finite_names_are_listed(registered);
    let p = |target: Seq<char>| !any(found, |m: MatchView| runs(m, target));
    let f = |target: Seq<char>| "benchmark workflow does not execute "@ + target;
    contained_is_occurring(workflow, "workflow_dispatch:"@);
    contained_is_occurring(workflow, "pull_request:"@);
    let a = mapped(keep(names, p), f);
    let b: Seq<Seq<char>> = if contains_text(workflow, "workflow_dispatch:"@) {
        seq![]
    } else {
        seq!["benchmark workflow has no manual trigger"@]
    };
    let c: Seq<Seq<char>> = if contains_text(workflow, "pull_request:"@) {
        seq!["benchmark workflow must not be a pull-request gate"@]
    } else {
        seq![]
    };
    assert(workflow_errors(workflow, registered, pattern) == a + b + c);
    in_concat(a, b, error);
    in_concat(a + b, c, error);
    if b.len() > 0 {
        assert(b.contains(b[0]));
    }
    if c.len() > 0 {
        assert(c.contains(c[0]));
    }
    described(names, p, f, error);
    assert forall|target: Seq<char>| #[trigger] is_executed(workflow, pattern, target)
        == !p(target) by {
        let q = |m: MatchView| runs(m, target);
        if is_executed(workflow, pattern, target) {
            let (k, n) = choose|k: int, n: nat|
                0 <= k < found.len() && #[trigger] executes(group_text(found[k], 1), target, n);
            running_is_executing(found[k], target);
            assert(q(found[k]));
        }
        if any(found, q) {
            let k = choose|k: int| 0 <= k < found.len() && q(#[trigger] found[k]);
            running_is_executing(found[k], target);
            let n = choose|n: nat| #[trigger] executes(group_text(found[k], 1), target, n);
            assert(executes(group_text(found[k], 1), target, n));
        }
    }
    if described_by(names, p, f, error) {
        let k = choose|k: int| 0 <= k < names.len() && p(#[trigger] names[k]) && f(names[k])
            == error;
        assert(names.to_set().contains(names[k]));
        assert(registered.contains(names[k]) && !is_executed(workflow, pattern, names[k]));
    }
    if exists|benchmark: Seq<char>| #[trigger]
        registered.contains(benchmark) && !is_executed(workflow, pattern, benchmark) && error
            == "benchmark workflow does not execute "@ + benchmark {
        let benchmark = choose|benchmark: Seq<char>| #[trigger]
            registered.contains(benchmark) && !is_executed(workflow, pattern, benchmark) && error
                == "benchmark workflow does not execute "@ + benchmark;
        assert(names.to_set().contains(benchmark));
        let k = names.index_of(benchmark);
        assert(p(names[k]) && f(names[k]) == error);
    }
}

/// Where no run in a workflow holds an asterisk, the benchmarks that are told not to be
/// executed are exactly the registered ones that no run names.
pub proof fn runs_without_asterisk_run_one_benchmark(
    workflow: Seq<char>,
    registered: Set<Seq<char>>,
    pattern: Seq<char>,
    benchmark: Seq<char>,
)
    requires
        registered.finite(),
        forall|k: int|
            0 <= k < pattern_matches(pattern, workflow).len() ==> !group_text(
                #[trigger] pattern_matches(pattern, workflow)[k],
                1,
            ).contains('*'),
    ensures
        workflow_errors(workflow, registered, pattern).contains(
            "benchmark workflow does not execute "@ + benchmark,
        ) <==> registered.contains(benchmark) && forall|k: int|
            0 <= k < pattern_matches(pattern, workflow).len() ==> group_text(
                #[trigger] pattern_matches(pattern, workflow)[k],
                1,
            ) != benchmark,
{
    let start = "benchmark workflow does not execute "@;
    let error = start + benchmark;
    let found = pattern_matches(pattern, workflow);
    workflow_runs_every_benchmark(workflow, registered, pattern, error);
    reveal_strlit("benchmark workflow does not execute ");
    reveal_strlit("benchmark workflow has no manual trigger");
    reveal_strlit("benchmark workflow must not be a pull-request gate");
    assert(error[19] == 'd');
    assert("benchmark workflow has no manual trigger"@[19] == 'h');
    assert("benchmark workflow must not be a pull-request gate"@[19] == 'm');
    assert forall|other: Seq<char>| #[trigger] (start + other) == error implies other
        == benchmark by {
        assert(other =~= (start + other).skip(start.len() as int));
        assert(benchmark =~= error.skip(start.len() as int));
    }
    if is_executed(workflow, pattern, benchmark) {
        let (k, n) = choose|k: int, n: nat|
            0 <= k < found.len() && #[trigger] executes(group_text(found[k], 1), benchmark, n);
        assert(!group_text(found[k], 1).contains('*'));
        assert(group_text(found[k], 1) == benchmark);
    }
    if exists|k: int| 0 <= k < found.len() && group_text(#[trigger] found[k], 1) == benchmark {
        let k = choose|k: int| 0 <= k < found.len() && group_text(#[trigger] found[k], 1)
            == benchmark;
        assert(executes(group_text(found[k], 1), benchmark, 0));
    }
}

/// What is wrong with a document that tells of benchmarks: each run of one that is not
/// registered, and the flags that Criterion no longer has; and nothing else.
pub proof fn documents_tell_of_registered_benchmarks(
    path: Seq<char>,
    text: Seq<char>,
    registered: Set<Seq<char>>,
    pattern: Seq<char>,
    error: Seq<char>,
)
    ensures
        document_errors(path, text, registered, pattern).contains(error) <==> {
            ||| exists|k: int|
                0 <= k < pattern_matches(pattern, text).len() && !registered.contains(
                    group_text(#[trigger] pattern_matches(pattern, text)[k], 1),
                ) && error == path + " advertises unregistered benchmark "@ + group_text(
                    pattern_matches(pattern, text)[k],
                    1,
                )
            ||| (occurs_in(text, "--save-baseline"@) || occurs_in(text, "--baseline"@)) && error
                == path + " advertises obsolete Criterion baseline flags"@
        },
{
    let found = pattern_matches(pattern, text);
    let p = |m: MatchView| !registered.contains(m.group_text(1));
    let f = |m: MatchView| path + " advertises unregistered benchmark "@ + m.group_text(1);
    contained_is_occurring(text, "--save-baseline"@);
    contained_is_occurring(text, "--baseline"@);
    let a = mapped(keep(found, p), f);
    let b: Seq<Seq<char>> = if contains_text(text, "--save-baseline"@) || contains_text(
        text,
        "--baseline"@,
    ) {
        seq![path + " advertises obsolete Criterion baseline flags"@]
    } else {
        seq![]
    };
    assert(document_errors(path, text, registered, pattern) == a + b);
    in_concat(a, b, error);
    if b.len() > 0 {
        assert(b.contains(b[0]));
    }
    described(found, p, f, error);
    assert forall|k: int| 0 <= k < found.len() implies group_text(#[trigger] found[k], 1)
        == found[k].group_text(1) by {
        same_group(found[k], 1);
    }
    if described_by(found, p, f, error) {
        let k = choose|k: int| 0 <= k < found.len() && p(#[trigger] found[k]) && f(found[k])
            == error;
        assert(!registered.contains(group_text(found[k], 1)));
    }
    if exists|k: int|
        0 <= k < found.len() && !registered.contains(group_text(#[trigger] found[k], 1)) && error
            == path + " advertises unregistered benchmark "@ + group_text(found[k], 1) {
        let k = choose|k: int|
            0 <= k < found.len() && !registered.contains(group_text(#[trigger] found[k], 1))
                && error == path + " advertises unregistered benchmark "@ + group_text(
                found[k],
                1,
            );
        assert(p(found[k]) && f(found[k]) == error);
    }
}

/// A required phrase is missing exactly where it stands in no document.
pub proof fn required_phrase_is_missing(docs: Seq<char>, phrase: Option<Seq<char>>)
    ensures
        phrase is None ==> phrase_errors(docs, phrase).len() == 0,
        phrase matches Some(text) ==> (phrase_errors(docs, phrase).len() > 0 <==> !occurs_in(
            docs,
            text,
        )),
        phrase matches Some(text) ==> (!occurs_in(docs, text) ==> phrase_errors(docs, phrase)
            == seq!["benchmark docs do not contain required phrase "@ + quoted(text)]),
{
    if let Some(text) = phrase {
        contained_is_occurring(docs, text);
    }
}

/// The benchmarks of a package are the names of its targets of that kind.
pub proof fn benchmarks_are_targets_of_their_kind(package: MetadataPackageView, name: Seq<char>)
    ensures
        benchmarks_of(package).contains(name) <==> exists|k: int|
            0 <= k < package.targets.len() && (#[trigger] package.targets[k]).name == Some(name)
                && package.targets[k].kinds.contains("bench"@),
        benchmarks_of(package).finite(),
{
    let f = |target: MetadataTargetView| super::benchmarks::bench_name(target);
    in_flat(package.targets, f, name);
    vstd::seq_lib::seq_to_set_is_finite(flat(package.targets, f));
    assert forall|k: int| 0 <= k < package.targets.len() implies f(
        #[trigger] package.targets[k],
    ).contains(name) == (package.targets[k].name == Some(name)
        && package.targets[k].kinds.contains("bench"@)) by {
        match package.targets[k].name {
            Some(own) => {
                assert(seq![own][0] == own);
            },
            None => {},
        }
    }
    if exists|k: int|
        0 <= k < package.targets.len() && f(#[trigger] package.targets[k]).contains(name) {
        let k = choose|k: int|
            0 <= k < package.targets.len() && f(#[trigger] package.targets[k]).contains(name);
        assert(package.targets[k].name == Some(name));
    }
    if exists|k: int|
        0 <= k < package.targets.len() && (#[trigger] package.targets[k]).name == Some(name)
            && package.targets[k].kinds.contains("bench"@) {
        let k = choose|k: int|
            0 <= k < package.targets.len() && (#[trigger] package.targets[k]).name == Some(name)
                && package.targets[k].kinds.contains("bench"@);
        assert(f(package.targets[k]).contains(name));
    }
}

/// The benchmarks of a repository are those of the first package whose manifest stands in
/// its root; there are none to be told where no package stands there.
pub proof fn repository_package_is_the_first_in_its_root(
    packages: Seq<MetadataPackageView>,
    root: Seq<char>,
    separators: crate::paths::Separators,
    i: int,
)
    ensures
        0 <= i < packages.len() && is_package_of(packages[i], root, separators) && (forall|j: int|
            0 <= j < i ==> !is_package_of(#[trigger] packages[j], root, separators))
            ==> registered_in(packages, root, separators) == Some(benchmarks_of(packages[i])),
        (forall|j: int|
            0 <= j < packages.len() ==> !is_package_of(#[trigger] packages[j], root, separators))
            ==> registered_in(packages, root, separators) is None,
        forall|j: int|
            0 <= j < packages.len() ==> (is_package_of(#[trigger] packages[j], root, separators)
                <==> (packages[j].manifest_path matches Some(path) && crate::paths::stands_in(
                path,
                root,
                separators,
            ))),
{
    let p = |package: MetadataPackageView| is_package_of(package, root, separators);
    if 0 <= i < packages.len() && is_package_of(packages[i], root, separators) && (forall|j: int|
        0 <= j < i ==> !is_package_of(#[trigger] packages[j], root, separators)) {
        assert forall|j: int| 0 <= j < i implies !p(#[trigger] packages[j]) by {}
        crate::seqs::first_where_at(packages, p, i);
    }
    if forall|j: int|
        0 <= j < packages.len() ==> !is_package_of(#[trigger] packages[j], root, separators) {
        assert forall|j: int| 0 <= j < packages.len() implies !p(#[trigger] packages[j]) by {}
        crate::seqs::first_where_none(packages, p);
    }
}

/// Reading the lines of a module one by one: a line that marks test code is not counted
/// and what follows is left out, until on a line with a brace or a semicolon all braces are
/// closed again; any other line counts exactly where it is neither blank nor a comment.
pub proof fn production_lines_are_counted(lines: Seq<Seq<char>>, line: Seq<char>)
    ensures
        ({
            let before = after_lines(lines);
            let after = after_lines(lines.push(line));
            let text = trimmed(line);
            let marks = occurs_in(text, "#[cfg(test)]"@);
            let closed = before.depth + crate::text::occurrences(line, '{')
                - crate::text::occurrences(line, '}');
            &&& after.count == before.count + if !before.skipping && !marks && text.len() > 0 && !(
            "//"@.is_prefix_of(text)) {
                1nat
            } else {
                0nat
            }
            &&& !before.skipping ==> after.skipping == marks && after.depth == before.depth
            &&& before.skipping ==> after.depth == closed && after.skipping == !(closed <= 0 && (
            line.contains('{') || line.contains(';')))
        }),
        after_lines(Seq::empty()).count == 0,
        !after_lines(Seq::empty()).skipping,
        after_lines(Seq::empty()).depth == 0,
{
    let text = trimmed(line);
    assert(lines.push(line).drop_last() =~= lines);
    contained_is_occurring(text, "#[cfg(test)]"@);
    prefixes_and_suffixes(text, "//"@);
    occurring_is_being_contained(line, '{');
    occurring_is_being_contained(line, ';');
}

proof fn occurring_is_being_contained(s: Seq<char>, c: char)
    ensures
        crate::text::occurrences(s, c) > 0 <==> s.contains(c),
    decreases s.len(),
{
    if s.len() > 0 {
        let rest = s.drop_last();
        occurring_is_being_contained(rest, c);
        if rest.contains(c) {
            assert(s[rest.index_of(c)] == c);
        }
        if s.contains(c) && s.last() != c {
            let k = s.index_of(c);
            assert(rest[k] == c);
        }
        if s.last() == c {
            assert(s[s.len() - 1] == c);
        }
    }
}

/// A module is told of exactly where it has more lines than the limit for warnings; it
/// fails exactly where it has more than the limit for failures and is on no list.
pub proof fn large_modules_are_told_of(count: usize, name: Seq<char>, config: &ModuleSizeConfig)
    ensures
        warning_of(count, name, config) is Some <==> count > config.warn_lines,
        failure_of(count, name, config) is Some <==> count > config.max_lines && (forall|i: int|
            0 <= i < config.allowlist@.len() ==> (#[trigger] config.allowlist@[i])@ != name) && (
        forall|i: int|
            0 <= i < config.legacy_allowlist@.len() ==> (
            #[trigger] config.legacy_allowlist@[i])@ != name),
        warning_of(count, name, config) matches Some(line) ==> line
            == crate::text::padded(crate::text::decimal(count as nat), 5) + " "@ + name + if exists|
            i: int|
            0 <= i < config.allowlist@.len() && (#[trigger] config.allowlist@[i])@ == name {
            " [allowlist]"@
        } else {
            ""@
        },
        failure_of(count, name, config) matches Some(line) ==> line
            == crate::text::padded(crate::text::decimal(count as nat), 5) + " "@ + name,
{
    listed_by_name(config.allowlist@, name);
    listed_by_name(config.legacy_allowlist@, name);
}

proof fn listed_by_name(list: Seq<String>, name: Seq<char>)
    ensures
        views(list).contains(name) <==> exists|i: int|
            0 <= i < list.len() && (#[trigger] list[i])@ == name,
{
    let all = views(list);
    if all.contains(name) {
        let i = all.index_of(name);
        assert(list[i]@ == name);
    }
    if exists|i: int| 0 <= i < list.len() && (#[trigger] list[i])@ == name {
        let i = choose|i: int| 0 <= i < list.len() && (#[trigger] list[i])@ == name;
        assert(all[i] == name);
    }
}

/// A file is a module that is checked exactly where its name is some other than `tests.rs`
/// that ends with `.rs` and has something before that.
pub proof fn checked_modules_are_rust_files(file_name: Seq<char>)
    ensures
        is_module(file_name) <==> ".rs"@.is_suffix_of(file_name) && file_name.len() > 3
            && file_name != "tests.rs"@,
{
    reveal_strlit(".rs");
    reveal_strlit("rs");
    reveal_strlit(".");
    assert("."@ =~= seq!['.']);
    let n = file_name.len() as int;
    crate::text::find_back_found(file_name, "."@, n - 1);
    if ".rs"@.is_suffix_of(file_name) {
        let end = file_name.subrange(n - 3, n);
        assert(end[0] == '.' && end[1] == 'r' && end[2] == 's');
        assert(file_name[n - 3] == '.' && file_name[n - 2] == 'r' && file_name[n - 1] == 's');
        assert(file_name.subrange(n - 3, n - 2) =~= "."@);
        assert(crate::text::matches_at(file_name, "."@, n - 3));
        match crate::text::find_back(file_name, "."@, n - 1) {
            Some(i) => {
                assert(file_name.subrange(i, i + 1)[0] == file_name[i]);
                assert("."@[0] == '.');
                assert(i == n - 3);
                assert(file_name.skip(i + 1) =~= "rs"@);
            },
            None => {},
        }
    }
    match crate::text::find_back(file_name, "."@, n - 1) {
        Some(i) => {
            if i > 0 && file_name.skip(i + 1) == "rs"@ {
                assert(file_name.subrange(i, i + 1)[0] == file_name[i]);
                assert("."@[0] == '.');
                assert(file_name.skip(i + 1).len() == 2);
                assert(file_name.skip(i + 1)[0] == file_name[i + 1]);
                assert(file_name.skip(i + 1)[1] == file_name[i + 2]);
                assert(file_name.subrange(n - 3, n) =~= ".rs"@);
            }
        },
        None => {},
    }
}

/// The tests of a suite that are run are those that a line of the listing names and whose
/// full name has the pattern in it, where there is one.
pub proof fn listed_tests_are_run(
    suite: Seq<char>,
    listing: Seq<char>,
    pattern: Option<Seq<char>>,
    test: Seq<char>,
)
    ensures
        wanted_tests(suite, listing, pattern).contains(test) <==> lines_of(listing).contains(
            test + ": test"@,
        ) && (pattern matches Some(text) ==> occurs_in(suite + "::"@ + test, text)),
{
    let f = |line: Seq<char>| named_test(line);
    let p = |test: Seq<char>| super::watchdog::is_wanted(suite, test, pattern);
    let all = lines_of(listing);
    reveal_strlit(": test");
    in_keep(flat(all, f), p, test);
    in_flat(all, f, test);
    if let Some(text) = pattern {
        contained_is_occurring(suite + "::"@ + test, text);
    }
    let line = test + ": test"@;
    if all.contains(line) {
        let k = all.index_of(line);
        prefixes_and_suffixes(line, ": test"@);
        assert(line.subrange(line.len() - 6, line.len() as int) =~= ": test"@);
        assert(line.take(line.len() - 6) =~= test);
        assert(f(all[k])[0] == test);
    }
    if flat(all, f).contains(test) {
        let k = choose|k: int| 0 <= k < all.len() && f(#[trigger] all[k]).contains(test);
        let own = all[k];
        prefixes_and_suffixes(own, ": test"@);
        assert(f(own)[0] == test);
        assert(own =~= test + ": test"@) by {
            assert(own =~= own.take(own.len() - 6) + own.subrange(own.len() - 6, own.len() as int));
        }
        assert(all.contains(line));
    }
}

/// A test that has ended is never stopped, and one that runs is stopped exactly when its
/// seconds are over; a test that ended without a code counts as failed.
pub proof fn tests_are_stopped_when_their_time_is_over(
    code: Option<i32>,
    elapsed_ms: u64,
    timeout: u64,
)
    ensures
        step_of(Some(code), elapsed_ms, timeout) == Step::Ended(
            match code {
                Some(code) => code,
                None => 1i32,
            },
        ),
        step_of(None, elapsed_ms, timeout) == Step::Stop <==> elapsed_ms >= timeout * 1000,
        step_of(None, elapsed_ms, timeout) == Step::Wait <==> elapsed_ms < timeout * 1000,
{
}

/// The watchdog goes on after a test that passed, and after every test where it is told to;
/// otherwise it stops, with 124 where the time was over and with 2 where the test failed.
pub proof fn watchdog_stops_at_failures(status: i32, continue_on_fail: bool)
    ensures
        stop_code(status, continue_on_fail) is None <==> status == 0 || continue_on_fail,
        status == 124 && !continue_on_fail ==> stop_code(status, continue_on_fail) == Some(124i32),
        status != 0 && status != 124 && !continue_on_fail ==> stop_code(status, continue_on_fail)
            == Some(2i32),
{
}

} // verus!
