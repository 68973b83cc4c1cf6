//! Where the sections of a test start, and which comments open them.

use vstd::prelude::*;

use super::markers::{
    comment_at, fresh, kind_of_word, last_opened, lex_step, line_marker, marker_of, markers_from,
    markers_in, raw_start, scan, section_on, word_char, word_end, words_from, LexState,
};
use super::model::{after, Marker, MarkerKind, Section, SourceSpan};
use crate::seqs::keep;
use crate::text::{has_prefix, trimmed};

verus! {

/// Whether marker `m` is the last one that stands on a line before this one.
pub open spec fn is_last_before(markers: Seq<Marker>, m: int, line: usize) -> bool {
    &&& 0 <= m < markers.len()
    &&& markers[m].span.start.line < line
    &&& forall|n: int|
        0 <= n < markers.len() && (#[trigger] markers[n]).span.start.line < line
            ==> markers[n].span.start.line < markers[m].span.start.line || (n <= m
            && markers[n].span.start.line == markers[m].span.start.line)
}

/// The section of a line is the one that the last marker on an earlier line opens, and the
/// body of the test where no marker stands on an earlier line.
pub proof fn sections_start_after_their_marker(markers: Seq<Marker>, line: usize)
    ensures
        section_on(markers, line) == Section::Body <==> forall|n: int|
            0 <= n < markers.len() ==> (#[trigger] markers[n]).span.start.line >= line,
        forall|m: int| #[trigger]
            is_last_before(markers, m, line) ==> {
                &&& section_on(markers, line) == Section::Arrange <==> markers[m].kind
                    == MarkerKind::Arrange
                &&& section_on(markers, line) == Section::Act <==> markers[m].kind
                    == MarkerKind::Act
                &&& section_on(markers, line) == Section::Assert <==> markers[m].kind
                    == MarkerKind::Assert
            },
{
    opened_last(markers, line);
    let p = |m: Marker| m.span.start.line < line;
    assert forall|m: int| #[trigger] is_last_before(markers, m, line) implies last_opened(
        keep(markers, p),
    ) == Some(markers[m]) by {
        let k = choose|k: int| #[trigger]
            is_last_before(markers, k, line) && Some(markers[k]) == last_opened(keep(markers, p));
        assert(markers[m].span.start.line < line && markers[k].span.start.line < line);
        assert(k == m);
    }
}

proof fn opened_last(markers: Seq<Marker>, line: usize)
    ensures
        ({
            let p = |m: Marker| m.span.start.line < line;
            match last_opened(keep(markers, p)) {
                Some(best) => exists|m: int| #[trigger]
                    is_last_before(markers, m, line) && Some(markers[m]) == Some(best),
                None => forall|n: int|
                    0 <= n < markers.len() ==> (#[trigger] markers[n]).span.start.line >= line,
            }
        }),
    decreases markers.len(),
{
    let p = |m: Marker| m.span.start.line < line;
    if markers.len() > 0 {
        let rest = markers.drop_last();
        let last = markers.last();
        let end = markers.len() - 1;
        opened_last(rest, line);
        assert forall|n: int| 0 <= n < end implies #[trigger] markers[n] == rest[n] by {}
        if p(last) {
            assert(keep(markers, p).drop_last() =~= keep(rest, p));
        }
        match last_opened(keep(rest, p)) {
            Some(best) => {
                let m = choose|m: int| #[trigger]
                    is_last_before(rest, m, line) && Some(rest[m]) == Some(best);
                if p(last) && last.span.start.line >= best.span.start.line {
                    assert forall|n: int|
                        0 <= n < markers.len() && (
                        #[trigger] markers[n]).span.start.line < line implies (
                    markers[n].span.start.line < markers[end].span.start.line || (n <= end
                        && markers[n].span.start.line == markers[end].span.start.line)) by {
                        if n < end {
                            assert(rest[n] == markers[n]);
                        }
                    }
                    assert(is_last_before(markers, end, line));
                } else {
                    assert forall|n: int|
                        0 <= n < markers.len() && (
                        #[trigger] markers[n]).span.start.line < line implies (
                    markers[n].span.start.line < markers[m].span.start.line || (n <= m
                        && markers[n].span.start.line == markers[m].span.start.line)) by {
                        if n < end {
                            assert(rest[n] == markers[n]);
                        }
                    }
                    assert(is_last_before(markers, m, line));
                }
            },
            None => {
                assert forall|n: int| 0 <= n < end implies (
                #[trigger] markers[n]).span.start.line >= line by {
                    assert(rest[n] == markers[n]);
                }
                if p(last) {
                    assert(is_last_before(markers, end, line));
                }
            },
        }
    }
}

/// Whether a text is one of the three words that open a section.
pub open spec fn opens(word: Seq<char>, kind: MarkerKind) -> bool {
    match kind {
        MarkerKind::Arrange => word == "Arrange"@,
        MarkerKind::Act => word == "Act"@,
        MarkerKind::Assert => word == "Assert"@,
    }
}

/// Whether a text is a word: letters, digits and underscores, at least one.
pub open spec fn is_word(s: Seq<char>) -> bool {
    s.len() > 0 && forall|i: int| 0 <= i < s.len() ==> word_char(#[trigger] s[i])
}

proof fn word_ends(s: Seq<char>, i: int, end: int)
    requires
        0 <= i <= end <= s.len(),
        forall|k: int| i <= k < end ==> word_char(#[trigger] s[k]),
        end < s.len() ==> !word_char(s[end]),
    ensures
        word_end(s, i) == end,
    decreases end - i,
{
    if i < end {
        assert(word_char(s[i]));
        word_ends(s, i + 1, end);
    }
}

proof fn first_word(s: Seq<char>, from: int, i: int, end: int)
    requires
        0 <= from <= i < end <= s.len(),
        forall|k: int| from <= k < i ==> !word_char(#[trigger] s[k]),
        forall|k: int| i <= k < end ==> word_char(#[trigger] s[k]),
        end < s.len() ==> !word_char(s[end]),
    ensures
        words_from(s, from).len() > 0,
        words_from(s, from)[0] == s.subrange(i, end),
        words_from(s, from) == seq![s.subrange(i, end)] + words_from(s, end),
    decreases i - from,
{
    if from < i {
        assert(!word_char(s[from]));
        first_word(s, from + 1, i, end);
    } else {
        assert(word_char(s[i]));
        word_ends(s, i, end);
    }
}

proof fn section_words()
    ensures
        "Arrange"@ != "Act"@,
        "Arrange"@ != "Assert"@,
        "Act"@ != "Assert"@,
        is_word("Arrange"@),
        is_word("Act"@),
        is_word("Assert"@),
        !has_prefix("Arrange"@, "/"@) && !has_prefix("Arrange"@, "!"@),
        !has_prefix("Act"@, "/"@) && !has_prefix("Act"@, "!"@),
        !has_prefix("Assert"@, "/"@) && !has_prefix("Assert"@, "!"@),
{
    reveal_strlit("Arrange");
    reveal_strlit("Act");
    reveal_strlit("Assert");
    reveal_strlit("/");
    reveal_strlit("!");
    assert("Arrange"@.len() == 7 && "Act"@.len() == 3 && "Assert"@.len() == 6);
    assert("Arrange"@[0] == 'A' && "Act"@[0] == 'A' && "Assert"@[0] == 'A');
    assert("/"@[0] == '/' && "!"@[0] == '!');
    starts_differ("Arrange"@, "/"@);
    starts_differ("Arrange"@, "!"@);
    starts_differ("Act"@, "/"@);
    starts_differ("Act"@, "!"@);
    starts_differ("Assert"@, "/"@);
    starts_differ("Assert"@, "!"@);
}

proof fn starts_differ(s: Seq<char>, pattern: Seq<char>)
    requires
        s.len() > 0,
        pattern.len() > 0,
        s[0] != pattern[0],
    ensures
        !has_prefix(s, pattern),
{
    if has_prefix(s, pattern) {
        crate::text_laws::standing(s, pattern, 0);
        assert(s.subrange(0, pattern.len() as int)[0] == s[0]);
    }
}

/// A comment opens a section where its first word is the name of the section; documentation
/// opens none. It is a combined marker exactly where it says anything more than this word.
pub proof fn comments_that_open_sections(
    line: Seq<char>,
    number: usize,
    at: int,
    kind: MarkerKind,
    i: int,
    end: int,
)
    requires
        0 <= at <= line.len() - 2,
        0 <= i < end <= trimmed(line.skip(at + 2)).len(),
        forall|k: int|
            0 <= k < i ==> !word_char(#[trigger] trimmed(line.skip(at + 2))[k]),
        is_word(trimmed(line.skip(at + 2)).subrange(i, end)),
        end < trimmed(line.skip(at + 2)).len() ==> !word_char(trimmed(line.skip(at + 2))[end]),
        trimmed(line.skip(at + 2))[0] != '/',
        trimmed(line.skip(at + 2))[0] != '!',
    ensures
        opens(trimmed(line.skip(at + 2)).subrange(i, end), kind) ==> {
            &&& marker_of(line, number, at) matches Some(marker)
            &&& marker.kind == kind
            &&& marker.span.start.line == number
            &&& marker.span.end.line == number
            &&& marker.span.start.column == after(at)
            &&& marker.combined <==> !opens(trimmed(line.skip(at + 2)), kind)
        },
        marker_of(line, number, at) is Some ==> opens(
            trimmed(line.skip(at + 2)).subrange(i, end),
            marker_of(line, number, at)->0.kind,
        ),
{
    let comment = trimmed(line.skip(at + 2));
    let word = comment.subrange(i, end);
    assert forall|k: int| i <= k < end implies word_char(#[trigger] comment[k]) by {
        assert(word_char(word[k - i]));
    }
    first_word(comment, 0, i, end);
    section_words();
    reveal_strlit("/");
    reveal_strlit("!");
    starts_differ(comment, "/"@);
    starts_differ(comment, "!"@);
    let p = |w: Seq<char>| kind_of_word(w) is Some;
    let found = words_from(comment, 0);
    if opens(comment, kind) || comment == "Arrange"@ || comment == "Act"@ || comment == "Assert"@ {
        assert(is_word(comment));
        if i > 0 {
            assert(word_char(comment[0]));
        }
        if end < comment.len() {
            assert(word_char(comment[end]));
        }
        assert(word =~= comment);
        assert(words_from(comment, end).len() == 0);
        assert(found =~= seq![comment]);
        assert(found.drop_last() =~= Seq::empty());
        assert(keep(found, p).len() <= 1) by {
            reveal_with_fuel(keep, 2);
        }
    }
}

/// Comments that start with `/` or `!` are documentation and open no section.
pub proof fn documentation_opens_no_section(line: Seq<char>, number: usize, at: int)
    requires
        0 <= at < line.len() - 2,
        trimmed(line.skip(at + 2)).len() > 0,
        trimmed(line.skip(at + 2))[0] == '/' || trimmed(line.skip(at + 2))[0] == '!',
    ensures
        marker_of(line, number, at) is None,
{
    let comment = trimmed(line.skip(at + 2));
    reveal_strlit("/");
    reveal_strlit("!");
    crate::text_laws::standing(comment, "/"@, 0);
    crate::text_laws::standing(comment, "!"@, 0);
    if comment[0] == '/' {
        assert(comment.subrange(0, 1) =~= "/"@);
    } else {
        assert(comment.subrange(0, 1) =~= "!"@);
    }
}

/// The markers of a function stand on its lines, each on a line of its own, in their order.
pub proof fn markers_stand_in_order(
    lines: Seq<Seq<char>>,
    span: SourceSpan,
    i: int,
    j: int,
)
    requires
        0 <= i < j < markers_in(lines, span).len(),
    ensures
        span.start.line <= markers_in(lines, span)[i].span.start.line,
        markers_in(lines, span)[i].span.start.line < markers_in(lines, span)[j].span.start.line,
        markers_in(lines, span)[j].span.start.line <= span.end.line,
        markers_in(lines, span)[j].span.start.line <= lines.len(),
{
    markers_in_order(lines, span.start.line as int, span.end.line as int, fresh());
}

proof fn markers_in_order(lines: Seq<Seq<char>>, number: int, last: int, state: LexState)
    ensures
        forall|i: int|
            0 <= i < markers_from(lines, number, last, state).len() ==> {
                let marker = #[trigger] markers_from(lines, number, last, state)[i];
                number <= marker.span.start.line <= last && marker.span.start.line <= lines.len()
            },
        forall|i: int, j: int|
            0 <= i < j < markers_from(lines, number, last, state).len() ==> (
            #[trigger] markers_from(lines, number, last, state)[i]).span.start.line < (
            #[trigger] markers_from(lines, number, last, state)[j]).span.start.line,
    decreases last - number + 1,
{
    if 1 <= number <= last && number <= lines.len() && number <= usize::MAX {
        let line = lines[number - 1];
        let next = scan(line, 0, state).0;
        markers_in_order(lines, number + 1, last, next);
        let rest = markers_from(lines, number + 1, last, next);
        let all = markers_from(lines, number, last, state);
        match line_marker(line, number as usize, state) {
            Some(marker) => {
                assert forall|i: int| 1 <= i < all.len() implies #[trigger] all[i] == rest[i - 1] by {}
                assert forall|i: int, j: int| 0 <= i < j < all.len() implies (
                #[trigger] all[i]).span.start.line < (#[trigger] all[j]).span.start.line by {
                    assert(all[j] == rest[j - 1]);
                    if i > 0 {
                        assert(all[i] == rest[i - 1]);
                    }
                }
            },
            None => {},
        }
    }
}

/// A marker stands in a line comment, directly in the body of the function and in no block
/// within it.
pub proof fn markers_stand_in_the_body(line: Seq<char>, number: usize, state: LexState)
    ensures
        line_marker(line, number, state) is Some ==> {
            &&& scan(line, 0, state).0.brace_depth == 1
            &&& scan(line, 0, state).1 matches Some(at)
            &&& 0 <= at < line.len() - 1
            &&& line[at] == '/' && line[at + 1] == '/'
            &&& marker_of(line, number, at) == line_marker(line, number, state)
        },
{
    comments_start_with_slashes(line, 0, state);
}

proof fn comments_start_with_slashes(line: Seq<char>, i: int, state: LexState)
    requires
        0 <= i,
    ensures
        scan(line, i, state).1 matches Some(at) ==> i <= at < line.len() - 1 && line[at] == '/'
            && line[at + 1] == '/',
    decreases line.len() - i,
{
    if i < line.len() && !comment_at(line, i, state) {
        let (next, end) = lex_step(line, i, state);
        if end > i {
            comments_start_with_slashes(line, end, next);
        }
    }
}

/// Whether a string, a raw string or a block comment that is open before a line does not end
/// on it.
pub open spec fn goes_on_over(line: Seq<char>, state: LexState) -> bool {
    if state.raw_hashes is Some {
        forall|k: int| 0 <= k < line.len() ==> #[trigger] line[k] != '"'
    } else if state.block_comment_depth > 0 {
        forall|k: int| 0 <= k < line.len() ==> #[trigger] line[k] != '*'
    } else {
        state.string && !state.escaped && forall|k: int|
            0 <= k < line.len() ==> #[trigger] line[k] != '"' && line[k] != '\\'
    }
}

/// The state with another depth of braces.
pub open spec fn at_depth(state: LexState, depth: usize) -> LexState {
    LexState { brace_depth: depth, ..state }
}

/// No comment starts within a string, a raw string or a block comment that goes on over the
/// whole line.
pub proof fn open_strings_and_comments_hide_comments(line: Seq<char>, i: int, state: LexState)
    requires
        0 <= i,
        goes_on_over(line, state),
    ensures
        scan(line, i, state).1 is None,
        scan(line, i, state).0.raw_hashes == state.raw_hashes,
        scan(line, i, state).0.block_comment_depth == state.block_comment_depth,
        scan(line, i, state).0.string == state.string,
        scan(line, i, state).0.brace_depth == state.brace_depth,
    decreases line.len() - i,
{
    if i < line.len() {
        assert(line[i] == line[i]);
        if i + 1 < line.len() {
            assert(line[i + 1] == line[i + 1]);
        }
        open_strings_and_comments_hide_comments(line, i + 1, state);
    }
}

/// In code without quotes the first two slashes start a comment.
pub proof fn plain_comments_start_at_the_first_slashes(
    line: Seq<char>,
    i: int,
    at: int,
    state: LexState,
)
    requires
        0 <= i <= at < line.len() - 1,
        state.raw_hashes is None,
        state.block_comment_depth == 0,
        !state.string,
        line[at] == '/' && line[at + 1] == '/',
        forall|k: int|
            i <= k < at && #[trigger] line[k] == '/' ==> line[k + 1] != '/' && line[k + 1] != '*',
        forall|k: int| 0 <= k < line.len() ==> #[trigger] line[k] != '"' && line[k] != '\'',
    ensures
        scan(line, i, state).1 == Some(at),
        (forall|k: int| i <= k < at ==> #[trigger] line[k] != '}' && line[k] != '{') ==> scan(
            line,
            i,
            state,
        ).0.brace_depth == state.brace_depth,
    decreases at - i,
{
    if i < at {
        assert(line[i] != '"' && line[i] != '\'');
        assert(raw_start(line, i) is None) by {
            if let Some((hashes, end)) = raw_start(line, i) {
                assert(line[end - 1] == '"');
                assert(end - 1 >= i) by {
                    hashes_go_on(line, i + 1);
                    hashes_go_on(line, i + 2);
                }
            }
        }
        let (next, end) = lex_step(line, i, state);
        assert(end == i + 1);
        plain_comments_start_at_the_first_slashes(line, i + 1, at, next);
    }
}

proof fn hashes_go_on(line: Seq<char>, i: int)
    ensures
        super::markers::hashes_end(line, i) >= i,
    decreases line.len() - i,
{
    if 0 <= i < line.len() && line[i] == '#' {
        hashes_go_on(line, i + 1);
    }
}

/// In plain code an opening brace goes one block in and a closing brace one block out.
pub proof fn braces_open_and_close_blocks(line: Seq<char>, i: int, state: LexState)
    requires
        0 <= i < line.len(),
        state.raw_hashes is None,
        state.block_comment_depth == 0,
        !state.string,
        state.brace_depth < usize::MAX,
    ensures
        line[i] == '{' ==> scan(line, i, state) == scan(
            line,
            i + 1,
            at_depth(state, (state.brace_depth + 1) as usize),
        ),
        line[i] == '}' && state.brace_depth > 0 ==> scan(line, i, state) == scan(
            line,
            i + 1,
            at_depth(state, (state.brace_depth - 1) as usize),
        ),
{
}

} // verus!
